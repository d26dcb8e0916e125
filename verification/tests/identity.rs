use lazylink::error::ConfigError;
use lazylink::identity::LibraryIdentity;
use lazylink::key::{group_key, group_label};
use std::collections::hash_map::DefaultHasher;
use std::hash::{Hash, Hasher};

fn hashed(index: u64, tag: u8, name: &str) -> u64 {
    let mut hasher = DefaultHasher::new();
    hasher.write(&index.to_le_bytes());
    hasher.write(&[tag]);
    hasher.write(name.as_bytes());
    hasher.finish()
}

#[test]
fn default_identity_is_unresolved() {
    assert_eq!(LibraryIdentity::default(), LibraryIdentity::Unresolved);
    assert!(!LibraryIdentity::default().is_resolved());
}

#[test]
fn named_identities_are_resolved() {
    assert!(LibraryIdentity::ShortName("z".to_string()).is_resolved());
    assert!(LibraryIdentity::FullName("libz.so".to_string()).is_resolved());
}

#[test]
fn full_name_is_handed_to_the_loader_unchanged() {
    let identity = LibraryIdentity::FullName("libc.so.6".to_string());
    assert_eq!(identity.loader_name(), Ok("libc.so.6".to_string()));
    let path = LibraryIdentity::FullName("/opt/lib/odd name.module".to_string());
    assert_eq!(path.loader_name(), Ok("/opt/lib/odd name.module".to_string()));
}

#[test]
fn short_name_becomes_the_platform_file_name() {
    let identity = LibraryIdentity::ShortName("z".to_string());
    let expected = libloading::library_filename("z").to_string_lossy().into_owned();
    assert_eq!(identity.loader_name(), Ok(expected));
    assert_ne!(identity.loader_name(), Ok("z".to_string()));
}

#[test]
fn short_name_on_this_platform() {
    let identity = LibraryIdentity::ShortName("audioengine".to_string());
    assert_eq!(identity.loader_name(), Ok("libaudioengine.so".to_string()));
}

#[test]
fn short_name_stands_in_the_file_name() {
    let file = LibraryIdentity::ShortName("LLVM".to_string()).loader_name().unwrap();
    assert!(file.contains("LLVM"));
}

#[test]
fn short_name_mapping_is_deterministic() {
    let first = LibraryIdentity::ShortName("ssl".to_string()).loader_name();
    let second = LibraryIdentity::ShortName("ssl".to_string()).loader_name();
    assert_eq!(first, second);
}

#[test]
fn unresolved_identity_has_no_loader_name() {
    assert_eq!(LibraryIdentity::Unresolved.loader_name(), Err(ConfigError::MissingIdentity));
}

#[test]
fn same_as_compares_kind_and_name() {
    let short = LibraryIdentity::ShortName("z".to_string());
    let full = LibraryIdentity::FullName("z".to_string());
    assert!(short.same_as(&LibraryIdentity::ShortName("z".to_string())));
    assert!(!short.same_as(&full));
    assert!(!short.same_as(&LibraryIdentity::ShortName("c".to_string())));
    assert!(!short.same_as(&LibraryIdentity::Unresolved));
    assert!(LibraryIdentity::Unresolved.same_as(&LibraryIdentity::Unresolved));
    assert!(full.same_as(&LibraryIdentity::FullName("z".to_string())));
}

#[test]
fn clone_keeps_the_identity() {
    let full = LibraryIdentity::FullName("libc.so.6".to_string());
    assert_eq!(full.clone(), full);
}

#[test]
fn group_key_hashes_index_kind_and_name() {
    let short = LibraryIdentity::ShortName("z".to_string());
    let full = LibraryIdentity::FullName("libc.so.6".to_string());
    assert_eq!(group_key(0, &short), hashed(0, 1, "z"));
    assert_eq!(group_key(3, &short), hashed(3, 1, "z"));
    assert_eq!(group_key(1, &full), hashed(1, 2, "libc.so.6"));
    assert_eq!(group_key(7, &LibraryIdentity::Unresolved), hashed(7, 0, ""));
}

#[test]
fn group_key_tells_groups_apart() {
    let short = LibraryIdentity::ShortName("z".to_string());
    let full = LibraryIdentity::FullName("z".to_string());
    assert_ne!(group_key(0, &short), group_key(1, &short));
    assert_ne!(group_key(0, &short), group_key(0, &full));
    assert_eq!(group_key(2, &short), group_key(2, &LibraryIdentity::ShortName("z".to_string())));
}

#[test]
fn group_label_is_prefix_and_hexadecimal_key() {
    assert_eq!(group_label(0), "__LazyLink0");
    assert_eq!(group_label(9), "__LazyLink9");
    assert_eq!(group_label(10), "__LazyLinka");
    assert_eq!(group_label(16), "__LazyLink10");
    assert_eq!(group_label(255), "__LazyLinkff");
    assert_eq!(group_label(0xdead_beef), "__LazyLinkdeadbeef");
    assert_eq!(group_label(u64::MAX), "__LazyLinkffffffffffffffff");
    assert_eq!(group_label(0x0123_4567_89ab_cdef), format!("__LazyLink{:x}", 0x0123_4567_89ab_cdefu64));
}

#[test]
fn messages_of_configuration_errors() {
    assert_eq!(ConfigError::MissingIdentity.message(), "no name specified");
    assert_eq!(ConfigError::UnidentifiedBlock(2).message(), "no name specified");
    assert_eq!(ConfigError::EmptyOption(0).message(), "unexpected token");
    assert_eq!(ConfigError::DuplicateIdentity(1).message(), "name already specified.");
    assert_eq!(
        ConfigError::DuplicateSource(1).message(),
        "include or include_outdir already specified."
    );
    assert_eq!(ConfigError::UnknownOption(0).message(), "unknown attribute");
    assert_eq!(
        ConfigError::UnsupportedItem(0, 1).message(),
        "currently supported extern fn only"
    );
    assert_eq!(ConfigError::UntypedParameter(0, 0).message(), "expect pat: ty.");
    assert_eq!(ConfigError::SourceWithBody.message(), "include but item already exists.");
    assert_eq!(ConfigError::SourceOnForeignBlock.message(), "can not include extern block.");
    assert_eq!(
        ConfigError::UnsupportedTarget.message(),
        "expect extern \"C\" { .. } or mod { .. }"
    );
}

#[test]
fn equal_identities_hash_alike() {
    let mut first = DefaultHasher::new();
    let mut second = DefaultHasher::new();
    LibraryIdentity::ShortName("z".to_string()).hash(&mut first);
    LibraryIdentity::ShortName("z".to_string()).hash(&mut second);
    assert_eq!(first.finish(), second.finish());
}
