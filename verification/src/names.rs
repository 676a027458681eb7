//! Quadlet and unit names: stems, extensions and systemd unit names.

use vstd::prelude::*;
use crate::text::{find_last, has_char, last_index_of, lemma_last_index_of};

verus! {

/// The text ".service".
pub open spec fn service_suffix() -> Seq<char> {
    seq!['.', 's', 'e', 'r', 'v', 'i', 'c', 'e']
}

/// The part of `name` before its last '.', or all of `name` when it has no '.'.
pub open spec fn stem_of(name: Seq<char>) -> Seq<char> {
    let i = last_index_of(name, '.');
    if i < 0 {
        name
    } else {
        name.take(i)
    }
}

/// The part of `name` after its last '.', or empty when it has no '.'.
pub open spec fn extension_text(name: Seq<char>) -> Seq<char> {
    let i = last_index_of(name, '.');
    if i < 0 {
        Seq::empty()
    } else {
        name.skip(i + 1)
    }
}

/// The systemd unit for a name: the name itself when it already has a '.',
/// else the name with ".service" appended.
pub open spec fn unit_name_of(unit: Seq<char>) -> Seq<char> {
    if unit.contains('.') {
        unit
    } else {
        unit + service_suffix()
    }
}

/// Removes the last extension (the final '.' and what follows) of `name`.
pub fn strip_dot_extension(name: &str) -> (r: String)
    ensures
        r@ == stem_of(name@),
{
    match find_last(name, '.') {
        Some(i) => {
            proof {
                lemma_last_index_of(name@, '.');
            }
            String::from_str(name.substring_char(0, i))
        },
        None => String::from_str(name),
    }
}

/// The last extension of `file_name` without its dot, or "" when there is none.
pub fn extension_of(file_name: &str) -> (r: &str)
    ensures
        r@ == extension_text(file_name@),
{
    let n = file_name.unicode_len();
    match find_last(file_name, '.') {
        Some(i) => {
            proof {
                lemma_last_index_of(file_name@, '.');
            }
            file_name.substring_char(i + 1, n)
        },
        None => {
            let e = file_name.substring_char(0, 0);
            proof {
                assert(e@ =~= Seq::<char>::empty());
            }
            e
        },
    }
}

/// The systemd unit name for a service: ".service" is appended only to names
/// without a '.'.
pub fn systemd_unit(unit: &str) -> (r: String)
    ensures
        r@ == unit_name_of(unit@),
{
    if has_char(unit, '.') {
        String::from_str(unit)
    } else {
        let r = String::from_str(unit).concat(".service");
        proof {
            reveal_strlit(".service");
            assert(".service"@ =~= service_suffix());
        }
        r
    }
}

/// A name with an extension is its stem, a '.', and its extension; the
/// extension holds no '.'; a name without '.' is its own stem, with an empty
/// extension.
pub proof fn lemma_stem_and_extension_rebuild_name(name: Seq<char>)
    ensures
        name.contains('.') ==> stem_of(name) + seq!['.'] + extension_text(name) == name,
        !name.contains('.') ==> stem_of(name) == name && extension_text(name).len() == 0,
        !extension_text(name).contains('.'),
{
    lemma_last_index_of(name, '.');
    let i = last_index_of(name, '.');
    if i >= 0 {
        assert(stem_of(name) + seq!['.'] + extension_text(name) =~= name);
        if extension_text(name).contains('.') {
            let k = choose|k: int|
                0 <= k < extension_text(name).len() && extension_text(name)[k] == '.';
            assert(name[i + 1 + k] == '.');
        }
    }
}

/// Only the final extension is removed: the stem is a prefix of the name that
/// is shorter by exactly the extension and its dot.
pub proof fn lemma_stem_removes_only_last_extension(name: Seq<char>)
    ensures
        stem_of(name).is_prefix_of(name),
        name.contains('.') ==> stem_of(name).len() + 1 + extension_text(name).len() == name.len(),
{
    lemma_last_index_of(name, '.');
    assert(stem_of(name) =~= name.take(stem_of(name).len() as int));
}

/// A unit name always holds a '.', and mapping a unit name again changes nothing.
pub proof fn lemma_unit_name_idempotent(unit: Seq<char>)
    ensures
        unit_name_of(unit).contains('.'),
        unit_name_of(unit_name_of(unit)) == unit_name_of(unit),
        (unit_name_of(unit) == unit) == unit.contains('.'),
{
    if !unit.contains('.') {
        let r = unit + service_suffix();
        assert(r[unit.len() as int] == '.');
        assert(r.len() != unit.len());
    }
}

} // verus!
