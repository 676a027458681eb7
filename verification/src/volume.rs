//! Reading the volume name declared in a `.volume` quadlet.

use vstd::prelude::*;
use crate::text::{is_white, lemma_trim_ends, find_from, first_index_of, lemma_first_index_of, matches_at, trim, trim_str};

verus! {

/// The text "VolumeName=".
pub open spec fn volume_key() -> Seq<char> {
    seq!['V', 'o', 'l', 'u', 'm', 'e', 'N', 'a', 'm', 'e', '=']
}

/// The rest of the first line of `s` (lines end at '\n') that begins with
/// "VolumeName=", after that key.
pub open spec fn volume_line_value(s: Seq<char>) -> Option<Seq<char>>
    decreases s.len(),
{
    let nl = first_index_of(s, '\n');
    if nl < 0 {
        if volume_key().is_prefix_of(s) {
            Some(s.skip(11))
        } else {
            None
        }
    } else if volume_key().is_prefix_of(s.take(nl)) {
        Some(s.take(nl).skip(11))
    } else {
        proof {
            lemma_first_index_of(s, '\n');
        }
        volume_line_value(s.skip(nl + 1))
    }
}

/// The volume name declared by `content`: the trimmed value of the first
/// "VolumeName=" line, when it is not empty.
pub open spec fn volume_name_of(content: Seq<char>) -> Option<Seq<char>> {
    match volume_line_value(content) {
        Some(v) => if trim(v).len() > 0 {
            Some(trim(v))
        } else {
            None
        },
        None => None,
    }
}

/// The volume name declared in a `.volume` file's `content`, if any.
pub fn parse_volume_name(content: &str) -> (r: Option<String>)
    ensures
        match r {
            Some(v) => volume_name_of(content@) == Some(v@),
            None => volume_name_of(content@) is None,
        },
{
    let key = "VolumeName=";
    proof {
        reveal_strlit("VolumeName=");
        assert(key@ =~= volume_key());
    }
    let n = content.unicode_len();
    let mut p: usize = 0;
    assert(content@.skip(0) =~= content@);
    loop
        invariant
            n == content@.len(),
            p <= n,
            key@ == volume_key(),
            volume_line_value(content@) == volume_line_value(content@.skip(p as int)),
        decreases n - p,
    {
        let ghost t = content@.skip(p as int);
        proof {
            lemma_first_index_of(t, '\n');
        }
        let nl = find_from(content, '\n', p);
        let end = match nl {
            Some(i) => i,
            None => n,
        };
        let found = matches_at(content, p, end, key);
        proof {
            if nl is None {
                assert(content@.subrange(p as int, end as int) =~= t);
            } else {
                assert(content@.subrange(p as int, end as int) =~= t.take(end - p));
            }
        }
        if found {
            let value = trim_str(content.substring_char(p + 11, end));
            proof {
                if nl is None {
                    assert(content@.subrange(p + 11, end as int) =~= t.skip(11));
                } else {
                    assert(content@.subrange(p + 11, end as int) =~= t.take(end - p).skip(11));
                }
            }
            if value.unicode_len() > 0 {
                return Some(String::from_str(value));
            } else {
                return None;
            }
        }
        match nl {
            None => {
                return None;
            },
            Some(i) => {
                proof {
                    assert(t.skip(i - p + 1) =~= content@.skip(i + 1));
                }
                p = i + 1;
            },
        }
    }
}

/// A declared volume name is not empty and neither begins nor ends with whitespace.
pub proof fn volume_name_is_trimmed(content: Seq<char>)
    ensures
        volume_name_of(content) matches Some(v) ==> v.len() > 0 && !is_white(v[0]) && !is_white(v.last()),
{
    if let Some(v) = volume_line_value(content) {
        lemma_trim_ends(v);
    }
}

} // verus!
