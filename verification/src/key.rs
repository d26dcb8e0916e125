//! Synthetic keys that tell binding groups apart.

use vstd::prelude::*;
use vstd::bytes::{spec_u64_to_le_bytes, u64_to_le_bytes};
use vstd::utf8::encode_utf8;
use vstd::std_specs::hash::DefaultHasherAdditionalSpecFns;
use std::collections::hash_map::DefaultHasher;
use std::hash::Hasher;
use crate::identity::{IdentityView, LibraryIdentity};

verus! {

/// The byte that stands for the kind of an identity in a group key.
pub open spec fn kind_tag(identity: IdentityView) -> u8 {
    match identity {
        IdentityView::Unresolved => 0,
        IdentityView::ShortName(_) => 1,
        IdentityView::FullName(_) => 2,
    }
}

/// The name that an identity holds, empty where it holds none.
pub open spec fn name_of(identity: IdentityView) -> Seq<char> {
    match identity {
        IdentityView::Unresolved => Seq::empty(),
        IdentityView::ShortName(n) => n,
        IdentityView::FullName(n) => n,
    }
}

/// What is fed to the hasher for a group: its sequence index as eight
/// little-endian bytes, the kind of its identity, and the name in UTF-8.
pub open spec fn key_material(index: usize, identity: IdentityView) -> Seq<Seq<u8>> {
    seq![
        spec_u64_to_le_bytes(index as u64),
        seq![kind_tag(identity)],
        encode_utf8(name_of(identity)),
    ]
}

/// The key of the group with this sequence index and identity.
pub open spec fn group_key_of(index: usize, identity: IdentityView) -> u64 {
    DefaultHasher::spec_finish(key_material(index, identity))
}

/// Computes the key of a group by hashing its sequence index together with
/// its identity.
pub fn group_key(index: usize, identity: &LibraryIdentity) -> (key: u64)
    ensures
        key == group_key_of(index, identity@),
{
    let mut hasher = DefaultHasher::new();
    let position = u64_to_le_bytes(index as u64);
    hasher.write(position.as_slice());
    match identity {
        LibraryIdentity::Unresolved => {
            let tag: Vec<u8> = vec![0u8];
            let name: Vec<u8> = Vec::new();
            hasher.write(tag.as_slice());
            hasher.write(name.as_slice());
            proof {
                assert(encode_utf8(Seq::<char>::empty()) =~= Seq::<u8>::empty()) by {
                    reveal_with_fuel(encode_utf8, 1);
                }
                assert(tag@ =~= seq![0u8]);
                assert(hasher@ =~= key_material(index, identity@));
            }
        },
        LibraryIdentity::ShortName(n) => {
            let tag: Vec<u8> = vec![1u8];
            hasher.write(tag.as_slice());
            hasher.write(n.as_str().as_bytes());
            proof {
                assert(tag@ =~= seq![1u8]);
                assert(hasher@ =~= key_material(index, identity@));
            }
        },
        LibraryIdentity::FullName(n) => {
            let tag: Vec<u8> = vec![2u8];
            hasher.write(tag.as_slice());
            hasher.write(n.as_str().as_bytes());
            proof {
                assert(tag@ =~= seq![2u8]);
                assert(hasher@ =~= key_material(index, identity@));
            }
        },
    }
    hasher.finish()
}

/// The hexadecimal digit for a value below sixteen.
pub open spec fn hex_digit(value: nat) -> char {
    if value == 0 {
        '0'
    } else if value == 1 {
        '1'
    } else if value == 2 {
        '2'
    } else if value == 3 {
        '3'
    } else if value == 4 {
        '4'
    } else if value == 5 {
        '5'
    } else if value == 6 {
        '6'
    } else if value == 7 {
        '7'
    } else if value == 8 {
        '8'
    } else if value == 9 {
        '9'
    } else if value == 10 {
        'a'
    } else if value == 11 {
        'b'
    } else if value == 12 {
        'c'
    } else if value == 13 {
        'd'
    } else if value == 14 {
        'e'
    } else {
        'f'
    }
}

/// A number in lower-case hexadecimal, without leading zeros.
pub open spec fn hex_digits(value: nat) -> Seq<char>
    decreases value,
{
    if value < 16 {
        seq![hex_digit(value)]
    } else {
        hex_digits(value / 16).push(hex_digit(value % 16))
    }
}

/// The text of one hexadecimal digit.
fn digit_text(value: u64) -> (text: &'static str)
    requires
        value < 16,
    ensures
        text@ == seq![hex_digit(value as nat)],
{
    proof {
        reveal_strlit("0");
        reveal_strlit("1");
        reveal_strlit("2");
        reveal_strlit("3");
        reveal_strlit("4");
        reveal_strlit("5");
        reveal_strlit("6");
        reveal_strlit("7");
        reveal_strlit("8");
        reveal_strlit("9");
        reveal_strlit("a");
        reveal_strlit("b");
        reveal_strlit("c");
        reveal_strlit("d");
        reveal_strlit("e");
        reveal_strlit("f");
    }
    let text = if value == 0 {
        "0"
    } else if value == 1 {
        "1"
    } else if value == 2 {
        "2"
    } else if value == 3 {
        "3"
    } else if value == 4 {
        "4"
    } else if value == 5 {
        "5"
    } else if value == 6 {
        "6"
    } else if value == 7 {
        "7"
    } else if value == 8 {
        "8"
    } else if value == 9 {
        "9"
    } else if value == 10 {
        "a"
    } else if value == 11 {
        "b"
    } else if value == 12 {
        "c"
    } else if value == 13 {
        "d"
    } else if value == 14 {
        "e"
    } else {
        "f"
    };
    assert(text@ =~= seq![hex_digit(value as nat)]);
    text
}

/// Appends a number in hexadecimal to a text.
fn append_hex(value: u64, text: &mut String)
    ensures
        final(text)@ == old(text)@ + hex_digits(value as nat),
    decreases value,
{
    if value >= 16 {
        append_hex(value / 16, text);
    }
    text.append(digit_text(value % 16));
    assert(text@ =~= old(text)@ + hex_digits(value as nat));
}

/// The characters of the label of the group with this key.
pub open spec fn group_label_of(key: u64) -> Seq<char> {
    "__LazyLink"@ + hex_digits(key as nat)
}

/// The label under which the cache of a group is known: a fixed prefix
/// followed by the key in hexadecimal.
pub fn group_label(key: u64) -> (label: String)
    ensures
        label@ == group_label_of(key),
{
    let mut label = "__LazyLink".to_owned();
    append_hex(key, &mut label);
    label
}

} // verus!
