use lazylink::attribute::{copy_attributes, find_last_value, is_word, link_name, AttrForm, Attribute, MetaItem};
use lazylink::config::{GroupConfig, SourceRef};
use lazylink::decl::{forwarded_attrs, inheritable_attrs, symbol_override, Binding, FunctionSignature, Param};
use lazylink::declare::{add_to_groups, declare, Declarations, Item};
use lazylink::error::ConfigError;
use lazylink::expand::{expand, lazylink, Expansion, Target};
use lazylink::group::{find_group, resolve_identity, BindingGroup, ForeignBlock, ForeignItem};
use lazylink::identity::LibraryIdentity;
use lazylink::key::group_key;
use lazylink::syntax::{read_entries, Token};

fn tokens(written: &str) -> Vec<Token> {
    written
        .split_whitespace()
        .map(|piece| match piece {
            "," => Token::Comma,
            "=" => Token::Equals,
            "?" => Token::Other,
            quoted if quoted.starts_with('\'') => Token::Text(quoted.trim_matches('\'').to_string()),
            word => Token::Word(word.to_string()),
        })
        .collect()
}

fn nv(name: &str, value: &str) -> MetaItem {
    MetaItem::NameValue(name.to_string(), value.to_string())
}

fn word(name: &str) -> Attribute {
    Attribute { name: name.to_string(), form: AttrForm::Word, source: format!("#[{}]", name) }
}

fn text(name: &str, value: &str) -> Attribute {
    Attribute {
        name: name.to_string(),
        form: AttrForm::Text(value.to_string()),
        source: format!("#[{} = {:?}]", name, value),
    }
}

fn list(name: &str, items: Vec<MetaItem>) -> Attribute {
    Attribute { name: name.to_string(), form: AttrForm::List(items), source: format!("#[{}(..)]", name) }
}

fn cfg(flag: &str) -> Attribute {
    Attribute {
        name: "cfg".to_string(),
        form: AttrForm::Other,
        source: format!("#[cfg({})]", flag),
    }
}

fn link(name: &str) -> Attribute {
    list("link", vec![nv("name", name)])
}

fn typed(pattern: &str, ty: &str) -> Param {
    Param::Typed(pattern.to_string(), ty.to_string())
}

fn function(name: &str, attrs: Vec<Attribute>, params: Vec<Param>, output: &str) -> FunctionSignature {
    FunctionSignature {
        name: name.to_string(),
        attrs,
        visibility: "pub".to_string(),
        params,
        output: output.to_string(),
    }
}

fn puts() -> FunctionSignature {
    function("puts", vec![], vec![typed("msg", "*const u8")], "")
}

fn abort() -> FunctionSignature {
    function("abort", vec![], vec![], "")
}

fn zlib_version() -> FunctionSignature {
    function(
        "zlib_version",
        vec![text("doc", " zlib version"), text("link_name", "zlibVersion")],
        vec![],
        "-> *const std::os::raw::c_char",
    )
}

fn block(attrs: Vec<Attribute>, functions: Vec<FunctionSignature>) -> ForeignBlock {
    ForeignBlock { attrs, items: functions.into_iter().map(ForeignItem::Function).collect() }
}

fn bound(function: &FunctionSignature, block_attrs: &Vec<Attribute>) -> Binding {
    function.bind(block_attrs).unwrap()
}

fn full(name: &str) -> LibraryIdentity {
    LibraryIdentity::FullName(name.to_string())
}

fn short(name: &str) -> LibraryIdentity {
    LibraryIdentity::ShortName(name.to_string())
}

#[test]
fn is_word_compares_whole_texts() {
    assert!(is_word(&"link".to_string(), "link"));
    assert!(!is_word(&"link_name".to_string(), "link"));
    assert!(!is_word(&"".to_string(), "link"));
    assert!(is_word(&"".to_string(), ""));
}

#[test]
fn last_value_of_a_key_wins() {
    let items = vec![nv("name", "a"), MetaItem::Other, nv("kind", "dylib"), nv("name", "b")];
    assert_eq!(find_last_value(&items, "name"), Some("b".to_string()));
    assert_eq!(find_last_value(&items, "kind"), Some("dylib".to_string()));
    assert_eq!(find_last_value(&items, "other"), None);
    assert_eq!(find_last_value(&vec![], "name"), None);
    assert_eq!(find_last_value(&vec![MetaItem::Literal("name".to_string())], "name"), None);
}

#[test]
fn link_hint_needs_name_and_dynamic_kind() {
    assert_eq!(link("z").link_hint(), Some("z".to_string()));
    assert_eq!(
        list("link", vec![nv("name", "z"), nv("kind", "dylib")]).link_hint(),
        Some("z".to_string())
    );
    assert_eq!(list("link", vec![nv("name", "z"), nv("kind", "static")]).link_hint(), None);
    assert_eq!(list("link", vec![nv("kind", "dylib")]).link_hint(), None);
    assert_eq!(list("other", vec![nv("name", "z")]).link_hint(), None);
    assert_eq!(text("link", "z").link_hint(), None);
    assert_eq!(word("link").link_hint(), None);
}

#[test]
fn link_name_is_that_of_the_first_hint() {
    let attrs = vec![
        text("doc", " comment!"),
        list("link", vec![nv("name", "static_one"), nv("kind", "static")]),
        link("z"),
        link("c"),
    ];
    assert_eq!(link_name(&attrs), Some("z".to_string()));
    assert_eq!(link_name(&vec![text("doc", "x"), word("no_mangle")]), None);
    assert_eq!(link_name(&vec![]), None);
}

#[test]
fn attributes_are_copied_whole() {
    let attrs = vec![link("z"), cfg("unix"), text("doc", "d"), word("inline")];
    assert_eq!(copy_attributes(&attrs), attrs);
    assert_eq!(attrs[0].clone(), attrs[0]);
}

#[test]
fn blocks_hand_down_conditions_and_documentation() {
    let attrs = vec![link("z"), cfg("unix"), word("allow"), text("doc", " comment!"), cfg("feature")];
    assert_eq!(
        inheritable_attrs(&attrs),
        vec![cfg("unix"), text("doc", " comment!"), cfg("feature")]
    );
    assert_eq!(inheritable_attrs(&vec![link("z")]), vec![]);
}

#[test]
fn wrappers_do_not_carry_symbol_overrides() {
    let attrs = vec![text("doc", "d"), text("link_name", "zlibVersion"), cfg("unix"), word("link_name")];
    assert_eq!(forwarded_attrs(&attrs), vec![text("doc", "d"), cfg("unix")]);
}

#[test]
fn symbol_override_is_the_first_textual_one() {
    let attrs = vec![word("link_name"), text("link_name", "first"), text("link_name", "second")];
    assert_eq!(symbol_override(&attrs), Some("first".to_string()));
    assert_eq!(symbol_override(&vec![text("doc", "link_name")]), None);
}

#[test]
fn symbol_defaults_to_the_exported_name() {
    assert_eq!(puts().symbol_name(), "puts");
    assert_eq!(puts().symbol_bytes(), b"puts\0".to_vec());
}

#[test]
fn symbol_follows_the_override() {
    assert_eq!(zlib_version().symbol_name(), "zlibVersion");
    assert_eq!(zlib_version().symbol_bytes(), b"zlibVersion\0".to_vec());
}

#[test]
fn symbol_bytes_are_utf8() {
    let f = function("grüße", vec![], vec![], "");
    assert_eq!(f.symbol_bytes(), "grüße\0".as_bytes().to_vec());
}

#[test]
fn binding_of_a_declared_function() {
    let f = function(
        "zlib_version",
        vec![text("doc", " zlib version"), text("link_name", "zlibVersion")],
        vec![typed("level", "i32"), typed("_", "*const u8")],
        "-> i32",
    );
    let block_attrs = vec![text("doc", " comment!"), link("z"), cfg("unix")];
    let binding = f.bind(&block_attrs).unwrap();
    assert_eq!(
        binding,
        Binding {
            exported: "zlib_version".to_string(),
            symbol: b"zlibVersion\0".to_vec(),
            attrs: vec![text("doc", " comment!"), cfg("unix"), text("doc", " zlib version")],
            visibility: "pub".to_string(),
            patterns: vec!["level".to_string(), "_".to_string()],
            types: vec!["i32".to_string(), "*const u8".to_string()],
            output: "-> i32".to_string(),
        }
    );
}

#[test]
fn function_with_untyped_parameter_is_not_bound() {
    let f = function("method", vec![], vec![typed("a", "i32"), Param::Untyped("self".to_string())], "");
    assert!(!f.is_fully_typed());
    assert_eq!(f.bind(&vec![]), None);
    assert!(puts().is_fully_typed());
    assert!(abort().is_fully_typed());
}

#[test]
fn options_name_the_library() {
    let bare = GroupConfig::from_options(&vec![MetaItem::Literal("z".to_string())]);
    assert_eq!(bare, Ok(GroupConfig { identity: short("z"), source: None }));
    let named = GroupConfig::from_options(&vec![nv("name", "z")]);
    assert_eq!(named, Ok(GroupConfig { identity: short("z"), source: None }));
    let fullname = GroupConfig::from_options(&vec![nv("fullname", "libc.so.6")]);
    assert_eq!(fullname, Ok(GroupConfig { identity: full("libc.so.6"), source: None }));
}

#[test]
fn no_options_leave_the_identity_unresolved() {
    assert_eq!(
        GroupConfig::from_options(&vec![]),
        Ok(GroupConfig { identity: LibraryIdentity::Unresolved, source: None })
    );
}

#[test]
fn options_name_the_source() {
    let root = GroupConfig::from_options(&vec![nv("include", "src/bindings.rs"), nv("name", "z")]);
    assert_eq!(
        root,
        Ok(GroupConfig {
            identity: short("z"),
            source: Some(SourceRef::ProjectRoot("src/bindings.rs".to_string())),
        })
    );
    let out = GroupConfig::from_options(&vec![nv("include_outdir", "bindings.rs")]);
    assert_eq!(
        out,
        Ok(GroupConfig {
            identity: LibraryIdentity::Unresolved,
            source: Some(SourceRef::OutputDir("bindings.rs".to_string())),
        })
    );
}

#[test]
fn second_identity_is_rejected() {
    let twice = vec![nv("name", "z"), nv("fullname", "libz.so")];
    assert_eq!(GroupConfig::from_options(&twice), Err(ConfigError::DuplicateIdentity(1)));
    let bare_twice = vec![MetaItem::Literal("z".to_string()), nv("include", "a"), MetaItem::Literal("c".to_string())];
    assert_eq!(GroupConfig::from_options(&bare_twice), Err(ConfigError::DuplicateIdentity(2)));
    let same = vec![nv("name", "z"), nv("name", "z")];
    assert_eq!(GroupConfig::from_options(&same), Err(ConfigError::DuplicateIdentity(1)));
}

#[test]
fn second_source_is_rejected() {
    let twice = vec![nv("include", "a.rs"), nv("include_outdir", "b.rs")];
    assert_eq!(GroupConfig::from_options(&twice), Err(ConfigError::DuplicateSource(1)));
    let same = vec![nv("name", "z"), nv("include", "a.rs"), nv("include", "a.rs")];
    assert_eq!(GroupConfig::from_options(&same), Err(ConfigError::DuplicateSource(2)));
}

#[test]
fn unknown_option_is_rejected() {
    assert_eq!(
        GroupConfig::from_options(&vec![nv("name", "z"), nv("version", "1")]),
        Err(ConfigError::UnknownOption(1))
    );
    assert_eq!(
        GroupConfig::from_options(&vec![MetaItem::Other]),
        Err(ConfigError::UnknownOption(0))
    );
}

#[test]
fn first_fault_among_options_is_reported() {
    let options = vec![nv("name", "z"), MetaItem::Other, nv("name", "c")];
    assert_eq!(GroupConfig::from_options(&options), Err(ConfigError::UnknownOption(1)));
    let options = vec![nv("name", "z"), nv("name", "c"), MetaItem::Other];
    assert_eq!(GroupConfig::from_options(&options), Err(ConfigError::DuplicateIdentity(1)));
}

#[test]
fn option_wins_over_link_hint() {
    assert_eq!(resolve_identity(&full("libc.so.6"), Some("c".to_string())), full("libc.so.6"));
    assert_eq!(resolve_identity(&short("z"), Some("c".to_string())), short("z"));
}

#[test]
fn link_hint_is_used_without_option() {
    assert_eq!(resolve_identity(&LibraryIdentity::Unresolved, Some("z".to_string())), short("z"));
}

#[test]
fn neither_option_nor_hint_leaves_identity_unresolved() {
    assert_eq!(resolve_identity(&LibraryIdentity::Unresolved, None), LibraryIdentity::Unresolved);
    assert_eq!(resolve_identity(&full("a"), None), full("a"));
}

#[test]
fn block_binds_its_functions_in_order() {
    let b = block(vec![cfg("unix")], vec![puts(), abort()]);
    let attrs = vec![cfg("unix")];
    assert_eq!(b.bindings(0), Ok(vec![bound(&puts(), &attrs), bound(&abort(), &attrs)]));
    assert_eq!(block(vec![], vec![]).bindings(0), Ok(vec![]));
}

#[test]
fn block_with_other_entry_is_rejected() {
    let b = ForeignBlock {
        attrs: vec![],
        items: vec![ForeignItem::Function(puts()), ForeignItem::Other, ForeignItem::Other],
    };
    assert_eq!(b.bindings(4), Err(ConfigError::UnsupportedItem(4, 1)));
}

#[test]
fn block_with_untyped_parameter_is_rejected() {
    let method = function("method", vec![], vec![Param::Untyped("self".to_string())], "");
    let b = ForeignBlock {
        attrs: vec![],
        items: vec![ForeignItem::Function(method), ForeignItem::Other],
    };
    assert_eq!(b.bindings(2), Err(ConfigError::UntypedParameter(2, 0)));
}

#[test]
fn block_link_hint() {
    assert_eq!(block(vec![link("z")], vec![]).link_hint(), Some("z".to_string()));
    assert_eq!(block(vec![cfg("unix")], vec![]).link_hint(), None);
}

#[test]
fn functions_of_one_identity_share_a_group() {
    let items = vec![
        Item::Foreign(block(vec![], vec![puts()])),
        Item::Other("fn helper() {}".to_string()),
        Item::Foreign(block(vec![], vec![abort()])),
    ];
    let identity = full("libc.so.6");
    let declared = declare(&identity, &items).unwrap();
    assert_eq!(
        declared,
        Declarations {
            rest: vec!["fn helper() {}".to_string()],
            groups: vec![BindingGroup {
                key: group_key(0, &identity),
                identity: full("libc.so.6"),
                bindings: vec![bound(&puts(), &vec![]), bound(&abort(), &vec![])],
            }],
        }
    );
}

#[test]
fn groups_follow_the_first_occurrence_of_their_identity() {
    let items = vec![
        Item::Foreign(block(vec![link("z")], vec![zlib_version()])),
        Item::Foreign(block(vec![link("c")], vec![puts()])),
        Item::Foreign(block(vec![link("z")], vec![abort()])),
        Item::Foreign(block(vec![link("m")], vec![])),
    ];
    let declared = declare(&LibraryIdentity::Unresolved, &items).unwrap();
    assert_eq!(declared.rest, Vec::<String>::new());
    assert_eq!(declared.groups.len(), 2);
    assert_eq!(declared.groups[0].identity, short("z"));
    assert_eq!(declared.groups[0].key, group_key(0, &short("z")));
    assert_eq!(
        declared.groups[0].bindings,
        vec![bound(&zlib_version(), &vec![link("z")]), bound(&abort(), &vec![link("z")])]
    );
    assert_eq!(declared.groups[1].identity, short("c"));
    assert_eq!(declared.groups[1].key, group_key(1, &short("c")));
    assert_eq!(declared.groups[1].bindings, vec![bound(&puts(), &vec![])]);
}

#[test]
fn option_decides_the_identity_of_every_block() {
    let items = vec![
        Item::Foreign(block(vec![link("z")], vec![puts()])),
        Item::Foreign(block(vec![], vec![abort()])),
    ];
    let declared = declare(&full("libc.so.6"), &items).unwrap();
    assert_eq!(declared.groups.len(), 1);
    assert_eq!(declared.groups[0].identity, full("libc.so.6"));
    assert_eq!(declared.groups[0].bindings.len(), 2);
}

#[test]
fn block_without_identity_is_rejected() {
    let items = vec![
        Item::Other("use std::os::raw::c_char;".to_string()),
        Item::Foreign(block(vec![link("z")], vec![puts()])),
        Item::Foreign(block(vec![text("doc", "no hint")], vec![abort()])),
    ];
    assert_eq!(
        declare(&LibraryIdentity::Unresolved, &items),
        Err(ConfigError::UnidentifiedBlock(2))
    );
}

#[test]
fn empty_block_without_identity_is_rejected() {
    let items = vec![Item::Foreign(block(vec![], vec![]))];
    assert_eq!(
        declare(&LibraryIdentity::Unresolved, &items),
        Err(ConfigError::UnidentifiedBlock(0))
    );
}

#[test]
fn fault_in_a_block_names_block_and_entry() {
    let bad = ForeignBlock {
        attrs: vec![],
        items: vec![ForeignItem::Function(puts()), ForeignItem::Other],
    };
    let items = vec![Item::Other("x".to_string()), Item::Foreign(bad)];
    assert_eq!(declare(&short("c"), &items), Err(ConfigError::UnsupportedItem(1, 1)));
}

#[test]
fn nothing_declared_without_items() {
    assert_eq!(
        declare(&LibraryIdentity::Unresolved, &vec![]),
        Ok(Declarations { rest: vec![], groups: vec![] })
    );
}

#[test]
fn bindings_join_the_group_of_their_identity() {
    let mut groups = vec![];
    add_to_groups(&mut groups, short("z"), vec![bound(&puts(), &vec![])]);
    add_to_groups(&mut groups, short("c"), vec![bound(&abort(), &vec![])]);
    add_to_groups(&mut groups, short("z"), vec![bound(&zlib_version(), &vec![])]);
    add_to_groups(&mut groups, short("m"), vec![]);
    assert_eq!(groups.len(), 2);
    assert_eq!(groups[0].bindings.len(), 2);
    assert_eq!(groups[0].bindings[1].exported, "zlib_version");
    assert_eq!(groups[1].key, group_key(1, &short("c")));
    assert_eq!(find_group(&groups, &short("c")), Some(1));
    assert_eq!(find_group(&groups, &short("z")), Some(0));
    assert_eq!(find_group(&groups, &full("z")), None);
    assert_eq!(find_group(&groups, &short("m")), None);
}

#[test]
fn function_is_found_by_its_exported_name() {
    let group = BindingGroup {
        key: 0,
        identity: short("z"),
        bindings: vec![bound(&puts(), &vec![]), bound(&zlib_version(), &vec![]), bound(&puts(), &vec![])],
    };
    assert_eq!(group.find("puts"), Some(0));
    assert_eq!(group.find("zlib_version"), Some(1));
    assert_eq!(group.find("zlibVersion"), None);
    assert_eq!(group.find(""), None);
}

#[test]
fn source_and_body_together_are_rejected() {
    let config = GroupConfig {
        identity: short("z"),
        source: Some(SourceRef::ProjectRoot("bindings.rs".to_string())),
    };
    let body = vec![Item::Other("fn f() {}".to_string())];
    assert_eq!(expand(&config, Target::Module(Some(body))), Err(ConfigError::SourceWithBody));
}

#[test]
fn source_and_body_together_are_rejected_before_anything_else() {
    let config = GroupConfig {
        identity: LibraryIdentity::Unresolved,
        source: Some(SourceRef::OutputDir("bindings.rs".to_string())),
    };
    let body = vec![Item::Foreign(ForeignBlock { attrs: vec![], items: vec![ForeignItem::Other] })];
    assert_eq!(expand(&config, Target::Module(Some(body))), Err(ConfigError::SourceWithBody));
}

#[test]
fn source_beside_empty_body_is_asked_for() {
    let source = SourceRef::ProjectRoot("bindings.rs".to_string());
    let config = GroupConfig { identity: short("z"), source: Some(source.clone()) };
    assert_eq!(
        expand(&config, Target::Module(Some(vec![]))),
        Ok(Expansion::NeedsSource(SourceRef::ProjectRoot("bindings.rs".to_string())))
    );
    assert_eq!(expand(&config, Target::Module(None)), Ok(Expansion::NeedsSource(source)));
}

#[test]
fn source_on_foreign_block_is_rejected() {
    let config = GroupConfig {
        identity: short("z"),
        source: Some(SourceRef::OutputDir("bindings.rs".to_string())),
    };
    assert_eq!(
        expand(&config, Target::Foreign(block(vec![], vec![puts()]))),
        Err(ConfigError::SourceOnForeignBlock)
    );
}

#[test]
fn module_without_body_or_source_is_unchanged() {
    let config = GroupConfig { identity: short("z"), source: None };
    assert_eq!(expand(&config, Target::Module(None)), Ok(Expansion::Unchanged));
}

#[test]
fn other_target_is_rejected() {
    let config = GroupConfig { identity: short("z"), source: None };
    assert_eq!(expand(&config, Target::Other), Err(ConfigError::UnsupportedTarget));
}

#[test]
fn foreign_block_with_link_hint_is_declared() {
    let config = GroupConfig { identity: LibraryIdentity::Unresolved, source: None };
    let target = Target::Foreign(block(vec![text("doc", " comment!"), link("z")], vec![zlib_version()]));
    let attrs = vec![text("doc", " comment!"), link("z")];
    assert_eq!(
        expand(&config, target),
        Ok(Expansion::Declared(Declarations {
            rest: vec![],
            groups: vec![BindingGroup {
                key: group_key(0, &short("z")),
                identity: short("z"),
                bindings: vec![bound(&zlib_version(), &attrs)],
            }],
        }))
    );
}

#[test]
fn foreign_block_without_identity_is_rejected() {
    let config = GroupConfig { identity: LibraryIdentity::Unresolved, source: None };
    assert_eq!(
        expand(&config, Target::Foreign(block(vec![], vec![puts()]))),
        Err(ConfigError::UnidentifiedBlock(0))
    );
}

#[test]
fn lazylink_reads_options_then_declarations() {
    let options = tokens("fullname = 'libc.so.6' ,");
    let body = vec![
        Item::Foreign(block(vec![], vec![puts()])),
        Item::Foreign(block(vec![], vec![abort()])),
    ];
    let expanded = lazylink(&options, Target::Module(Some(body))).unwrap();
    match expanded {
        Expansion::Declared(declarations) => {
            assert_eq!(declarations.groups.len(), 1);
            assert_eq!(declarations.groups[0].identity, full("libc.so.6"));
            assert_eq!(declarations.groups[0].bindings[0].symbol, b"puts\0".to_vec());
            assert_eq!(declarations.groups[0].bindings[1].symbol, b"abort\0".to_vec());
        }
        other => panic!("unexpected expansion {:?}", other),
    }
}

#[test]
fn lazylink_reports_faulty_options_first() {
    let options = tokens("name = 'z' , name = 'c'");
    assert_eq!(lazylink(&options, Target::Other), Err(ConfigError::DuplicateIdentity(1)));
    assert_eq!(lazylink(&tokens("'z' , ,"), Target::Other), Err(ConfigError::EmptyOption(1)));
    assert_eq!(lazylink(&vec![], Target::Other), Err(ConfigError::UnsupportedTarget));
}

#[test]
fn lazylink_rejects_source_with_body() {
    let options = tokens("include = 'bindings.rs' , 'z'");
    let body = vec![Item::Foreign(block(vec![], vec![puts()]))];
    assert_eq!(lazylink(&options, Target::Module(Some(body))), Err(ConfigError::SourceWithBody));
}

#[test]
fn options_are_separated_by_commas() {
    assert_eq!(
        read_entries(&tokens("'z' , name = 'c' , fullname = 'libc.so.6'")),
        Ok(vec![MetaItem::Literal("z".to_string()), nv("name", "c"), nv("fullname", "libc.so.6")])
    );
    assert_eq!(read_entries(&tokens("name = 'z'")), Ok(vec![nv("name", "z")]));
}

#[test]
fn empty_list_holds_no_options() {
    assert_eq!(read_entries(&vec![]), Ok(vec![]));
}

#[test]
fn a_comma_may_close_the_list() {
    assert_eq!(read_entries(&tokens("name = 'z' ,")), Ok(vec![nv("name", "z")]));
    assert_eq!(
        read_entries(&tokens("'a' , 'b' ,")),
        Ok(vec![MetaItem::Literal("a".to_string()), MetaItem::Literal("b".to_string())])
    );
}

#[test]
fn a_comma_in_place_of_an_option_is_rejected() {
    assert_eq!(read_entries(&tokens(",")), Err(ConfigError::EmptyOption(0)));
    assert_eq!(read_entries(&tokens(", 'z'")), Err(ConfigError::EmptyOption(0)));
    assert_eq!(read_entries(&tokens("'z' , , 'c'")), Err(ConfigError::EmptyOption(1)));
    assert_eq!(read_entries(&tokens("'z' , 'c' , ,")), Err(ConfigError::EmptyOption(2)));
}

#[test]
fn other_forms_are_not_understood() {
    assert_eq!(
        read_entries(&tokens("name , name = , = 'z' , name = z , 'a' 'b' , ? , name = 'z' ?")),
        Ok(vec![
            MetaItem::Other,
            MetaItem::Other,
            MetaItem::Other,
            MetaItem::Other,
            MetaItem::Other,
            MetaItem::Other,
            MetaItem::Other,
        ])
    );
}

#[test]
fn tokens_are_parsed_into_a_configuration() {
    assert_eq!(
        GroupConfig::parse(&tokens("'z' , include_outdir = 'bindings.rs' ,")),
        Ok(GroupConfig {
            identity: short("z"),
            source: Some(SourceRef::OutputDir("bindings.rs".to_string())),
        })
    );
    assert_eq!(GroupConfig::parse(&tokens("z")), Err(ConfigError::UnknownOption(0)));
    assert_eq!(GroupConfig::parse(&tokens(", 'z'")), Err(ConfigError::EmptyOption(0)));
    assert_eq!(
        GroupConfig::parse(&vec![]),
        Ok(GroupConfig { identity: LibraryIdentity::Unresolved, source: None })
    );
}
