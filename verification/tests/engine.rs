use lazylink::decl::Binding;
use lazylink::engine::{BindError, BindingCache, Command, Event};
use lazylink::error::ConfigError;
use lazylink::group::BindingGroup;
use lazylink::identity::LibraryIdentity;

fn binding(name: &str) -> Binding {
    let mut symbol = name.as_bytes().to_vec();
    symbol.push(0);
    Binding {
        exported: name.to_string(),
        symbol,
        attrs: vec![],
        visibility: "pub".to_string(),
        patterns: vec![],
        types: vec![],
        output: String::new(),
    }
}

fn group(identity: LibraryIdentity, names: &[&str]) -> BindingGroup {
    BindingGroup { key: 0, identity, bindings: names.iter().map(|name| binding(name)).collect() }
}

fn libc() -> BindingGroup {
    group(LibraryIdentity::FullName("libc.so.6".to_string()), &["puts"])
}

fn ready(names: &[&str], addresses: &[usize]) -> BindingCache {
    let mut cache = BindingCache::new(group(LibraryIdentity::FullName("lib.so".to_string()), names));
    cache.call(0);
    cache.deliver(Event::Opened);
    for address in addresses {
        cache.deliver(Event::Resolved(*address));
    }
    cache
}

#[test]
fn new_cache_is_uninitialized() {
    let cache = BindingCache::new(libc());
    assert!(!cache.is_ready());
    assert!(!cache.has_failed());
    assert_eq!(cache.failure(), None);
    assert_eq!(cache.address_of(0), None);
    assert_eq!(cache.group(), &libc());
}

#[test]
fn round_trip_of_a_first_call() {
    let mut cache = BindingCache::new(libc());
    assert_eq!(cache.call(0), Command::Open("libc.so.6".to_string()));
    assert_eq!(cache.deliver(Event::Opened), Command::Resolve(b"puts\0".to_vec()));
    assert_eq!(cache.deliver(Event::Resolved(0x7f00_1000)), Command::Invoke(0x7f00_1000));
    assert!(cache.is_ready());
    assert_eq!(cache.address_of(0), Some(0x7f00_1000));
    assert_eq!(cache.call(0), Command::Invoke(0x7f00_1000));
}

#[test]
fn short_name_is_opened_under_the_platform_file_name() {
    let mut cache = BindingCache::new(group(LibraryIdentity::ShortName("z".to_string()), &["zlibVersion"]));
    let expected = libloading::library_filename("z").to_string_lossy().into_owned();
    assert_eq!(cache.call(0), Command::Open(expected));
}

#[test]
fn symbols_are_resolved_in_order_of_declaration() {
    let mut cache = BindingCache::new(group(
        LibraryIdentity::FullName("lib.so".to_string()),
        &["first", "second", "third"],
    ));
    assert_eq!(cache.call(1), Command::Open("lib.so".to_string()));
    assert_eq!(cache.deliver(Event::Opened), Command::Resolve(b"first\0".to_vec()));
    assert_eq!(cache.deliver(Event::Resolved(10)), Command::Resolve(b"second\0".to_vec()));
    assert!(!cache.is_ready());
    assert_eq!(cache.address_of(0), None);
    assert_eq!(cache.deliver(Event::Resolved(20)), Command::Resolve(b"third\0".to_vec()));
    assert_eq!(cache.deliver(Event::Resolved(30)), Command::Invoke(20));
    assert_eq!(cache.call(0), Command::Invoke(10));
    assert_eq!(cache.call(1), Command::Invoke(20));
    assert_eq!(cache.call(2), Command::Invoke(30));
    assert_eq!(cache.address_of(2), Some(30));
    assert_eq!(cache.address_of(3), None);
}

#[test]
fn initialisation_runs_once_for_many_calls() {
    let mut cache = BindingCache::new(group(LibraryIdentity::FullName("lib.so".to_string()), &["f", "g"]));
    let mut opens = 0;
    let mut lookups = 0;
    let mut told = vec![cache.call(0)];
    for index in 0..8 {
        told.push(cache.call(index % 2));
    }
    told.push(cache.deliver(Event::Opened));
    for index in 0..8 {
        told.push(cache.call(index % 2));
    }
    told.push(cache.deliver(Event::Resolved(1)));
    told.push(cache.call(1));
    told.push(cache.deliver(Event::Resolved(2)));
    for index in 0..8 {
        told.push(cache.call(index % 2));
    }
    told.push(cache.deliver(Event::Opened));
    told.push(cache.deliver(Event::Resolved(3)));
    for command in &told {
        match command {
            Command::Open(_) => opens += 1,
            Command::Resolve(_) => lookups += 1,
            _ => {}
        }
    }
    assert_eq!(opens, 1);
    assert_eq!(lookups, 2);
    assert_eq!(cache.call(0), Command::Invoke(1));
    assert_eq!(cache.call(1), Command::Invoke(2));
}

#[test]
fn calls_during_initialisation_wait() {
    let mut cache = BindingCache::new(group(LibraryIdentity::FullName("lib.so".to_string()), &["f", "g"]));
    cache.call(1);
    assert_eq!(cache.call(0), Command::Wait);
    cache.deliver(Event::Opened);
    assert_eq!(cache.call(1), Command::Wait);
    cache.deliver(Event::Resolved(5));
    assert_eq!(cache.call(0), Command::Wait);
    assert_eq!(cache.deliver(Event::Resolved(6)), Command::Invoke(6));
}

#[test]
fn missing_symbol_fails_the_whole_group() {
    let mut cache = BindingCache::new(group(
        LibraryIdentity::FullName("lib.so".to_string()),
        &["present", "absent", "never_asked"],
    ));
    cache.call(0);
    cache.deliver(Event::Opened);
    cache.deliver(Event::Resolved(10));
    let failure = BindError::Symbol(1, "undefined symbol: absent".to_string());
    assert_eq!(
        cache.deliver(Event::ResolveFailed("undefined symbol: absent".to_string())),
        Command::Reject(failure.clone())
    );
    assert!(cache.has_failed());
    assert!(!cache.is_ready());
    assert_eq!(cache.failure(), Some(failure.clone()));
    for index in 0..3 {
        assert_eq!(cache.call(index), Command::Reject(failure.clone()));
        assert_eq!(cache.address_of(index), None);
    }
}

#[test]
fn failed_group_is_not_tried_again() {
    let mut cache = BindingCache::new(libc());
    cache.call(0);
    let failure = BindError::Load("libc.so.6: cannot open shared object file".to_string());
    assert_eq!(
        cache.deliver(Event::OpenFailed("libc.so.6: cannot open shared object file".to_string())),
        Command::Reject(failure.clone())
    );
    assert_eq!(cache.call(0), Command::Reject(failure.clone()));
    assert_eq!(cache.deliver(Event::Opened), Command::Nothing);
    assert_eq!(cache.deliver(Event::Resolved(1)), Command::Nothing);
    assert_eq!(cache.call(0), Command::Reject(failure));
    assert!(cache.has_failed());
}

#[test]
fn unresolved_identity_fails_before_the_loader_is_asked() {
    let mut cache = BindingCache::new(group(LibraryIdentity::Unresolved, &["f"]));
    let failure = BindError::Config(ConfigError::MissingIdentity);
    assert_eq!(cache.call(0), Command::Reject(failure.clone()));
    assert!(cache.has_failed());
    assert_eq!(cache.deliver(Event::Opened), Command::Nothing);
    assert_eq!(cache.call(0), Command::Reject(failure));
}

#[test]
fn independent_groups_do_not_affect_each_other() {
    let mut absent = BindingCache::new(group(
        LibraryIdentity::FullName("libdoes_not_exist.so".to_string()),
        &["nothing"],
    ));
    let mut present = BindingCache::new(libc());
    assert_eq!(present.call(0), Command::Open("libc.so.6".to_string()));
    present.deliver(Event::Opened);
    assert_eq!(present.deliver(Event::Resolved(77)), Command::Invoke(77));
    assert!(!absent.has_failed());
    assert!(!absent.is_ready());
    assert_eq!(absent.call(0), Command::Open("libdoes_not_exist.so".to_string()));
    absent.deliver(Event::OpenFailed("not found".to_string()));
    assert!(absent.has_failed());
    assert!(present.is_ready());
    assert_eq!(present.call(0), Command::Invoke(77));
}

#[test]
fn call_to_unknown_function_changes_nothing() {
    let mut cache = BindingCache::new(libc());
    assert_eq!(cache.call(1), Command::Reject(BindError::UnknownFunction(1)));
    assert!(!cache.has_failed());
    assert_eq!(cache.call(0), Command::Open("libc.so.6".to_string()));
    let mut empty = BindingCache::new(group(LibraryIdentity::FullName("lib.so".to_string()), &[]));
    assert_eq!(empty.call(0), Command::Reject(BindError::UnknownFunction(0)));
    assert!(!empty.has_failed());
}

#[test]
fn events_that_are_not_awaited_change_nothing() {
    let mut cache = BindingCache::new(libc());
    assert_eq!(cache.deliver(Event::Opened), Command::Nothing);
    assert_eq!(cache.deliver(Event::Resolved(1)), Command::Nothing);
    assert_eq!(cache.deliver(Event::OpenFailed("x".to_string())), Command::Nothing);
    assert_eq!(cache.deliver(Event::ResolveFailed("x".to_string())), Command::Nothing);
    assert!(!cache.has_failed());
    assert_eq!(cache.call(0), Command::Open("libc.so.6".to_string()));
    assert_eq!(cache.deliver(Event::Resolved(1)), Command::Nothing);
    assert_eq!(cache.deliver(Event::ResolveFailed("x".to_string())), Command::Nothing);
    assert_eq!(cache.deliver(Event::Opened), Command::Resolve(b"puts\0".to_vec()));
    assert_eq!(cache.deliver(Event::Opened), Command::Nothing);
    assert_eq!(cache.deliver(Event::OpenFailed("x".to_string())), Command::Nothing);
    assert_eq!(cache.deliver(Event::Resolved(9)), Command::Invoke(9));
}

#[test]
fn ready_cache_stays_ready() {
    let mut cache = ready(&["f", "g"], &[1, 2]);
    assert!(cache.is_ready());
    assert_eq!(cache.deliver(Event::ResolveFailed("late".to_string())), Command::Nothing);
    assert_eq!(cache.deliver(Event::OpenFailed("late".to_string())), Command::Nothing);
    assert_eq!(cache.deliver(Event::Resolved(3)), Command::Nothing);
    assert!(cache.is_ready());
    assert_eq!(cache.call(0), Command::Invoke(1));
    assert_eq!(cache.call(1), Command::Invoke(2));
}

#[test]
fn bind_error_is_cloned_whole() {
    let errors = vec![
        BindError::Config(ConfigError::MissingIdentity),
        BindError::Load("a".to_string()),
        BindError::Symbol(3, "b".to_string()),
        BindError::UnknownFunction(4),
    ];
    for error in &errors {
        assert_eq!(&error.clone(), error);
    }
}
