//! Finding quadlet files: which directory entries are quadlets, the check that
//! no file name appears twice, the order they are handled in, and the units
//! they define.

use vstd::prelude::*;
use crate::names::{stem_of, strip_dot_extension};
use crate::paths::{
    file_name, extension_of_path, file_name_of, lemma_parts_lt_order, path_extension, path_less,
    path_lt, path_parts,
};
use crate::text::{lemma_text_lt_order, same_text, strings_view, text_less, text_lt};

verus! {

/// Whether an extension is one of a quadlet's: container, network, volume,
/// service, socket or mount.
pub open spec fn is_quadlet_extension(e: Seq<char>) -> bool {
    e == "container"@ || e == "network"@ || e == "volume"@ || e == "service"@ || e == "socket"@
        || e == "mount"@
}

/// Whether a path names a quadlet file, by its extension.
pub open spec fn is_quadlet_path(p: Seq<char>) -> bool {
    match path_extension(p) {
        Some(e) => is_quadlet_extension(e),
        None => false,
    }
}

/// The test `is_quadlet_path` as a function value.
pub open spec fn quadlet_test() -> spec_fn(Seq<char>) -> bool {
    |p: Seq<char>| is_quadlet_path(p)
}

/// The quadlet files among directory entries, in the order they were listed.
pub open spec fn quadlet_paths(entries: Seq<Seq<char>>) -> Seq<Seq<char>> {
    entries.filter(quadlet_test())
}

/// Whether no two paths share a file name.
pub open spec fn names_distinct(q: Seq<Seq<char>>) -> bool {
    forall|i: int, j: int| 0 <= i < j < q.len() ==> file_name_of(q[i]) != file_name_of(q[j])
}

/// Whether paths are in strictly increasing path order.
pub open spec fn sorted_paths(v: Seq<Seq<char>>) -> bool {
    forall|i: int, j: int| 0 <= i < j < v.len() ==> path_lt(v[i], v[j])
}

/// Whether an extension is a quadlet's.
pub fn is_quadlet_ext(e: &str) -> (r: bool)
    ensures
        r == is_quadlet_extension(e@),
{
    same_text(e, "container") || same_text(e, "network") || same_text(e, "volume") || same_text(
        e,
        "service",
    ) || same_text(e, "socket") || same_text(e, "mount")
}

/// Two quadlet files with one file name.
#[derive(Debug)]
pub struct DuplicateName {
    /// The shared file name.
    pub name: String,
    /// The path listed first.
    pub first: String,
    /// The path listed later.
    pub second: String,
}

impl DuplicateName {
    /// "duplicate quadlet file name '<name>' found in <first> and <second>".
    pub fn message(&self) -> (r: String)
        ensures
            r@ == "duplicate quadlet file name '"@ + self.name@ + "' found in "@ + self.first@
                + " and "@ + self.second@,
    {
        let mut out = String::from_str("duplicate quadlet file name '");
        out.append(self.name.as_str());
        out.append("' found in ");
        out.append(self.first.as_str());
        out.append(" and ");
        out.append(self.second.as_str());
        out
    }
}

proof fn lemma_distinct_names_distinct_parts(x: Seq<char>, y: Seq<char>)
    requires
        file_name_of(x) is Some,
        file_name_of(x) != file_name_of(y),
    ensures
        path_parts(x) != path_parts(y),
        path_lt(x, y) || path_lt(y, x),
{
    lemma_parts_lt_order(path_parts(x), path_parts(y), path_parts(y));
}

proof fn lemma_insert_to_set(s: Seq<Seq<char>>, k: int, x: Seq<char>)
    requires
        0 <= k <= s.len(),
    ensures
        s.insert(k, x).to_set() == s.to_set().insert(x),
{
    assert forall|y: Seq<char>| s.insert(k, x).to_set().contains(y) == s.to_set().insert(x).contains(y) by {
        if s.insert(k, x).contains(y) {
            let m = choose|m: int| 0 <= m < s.insert(k, x).len() && s.insert(k, x)[m] == y;
            if m < k {
                assert(s[m] == y);
            } else if m > k {
                assert(s[m - 1] == y);
            }
        }
        if s.contains(y) {
            let m = choose|m: int| 0 <= m < s.len() && s[m] == y;
            if m < k {
                assert(s.insert(k, x)[m] == y);
            } else {
                assert(s.insert(k, x)[m + 1] == y);
            }
        }
        if y == x {
            assert(s.insert(k, x)[k] == x);
        }
    }
    assert(s.insert(k, x).to_set() =~= s.to_set().insert(x));
}

fn insert_by_path(v: &mut Vec<String>, x: String)
    requires
        sorted_paths(strings_view(old(v)@)),
        forall|i: int| 0 <= i < old(v)@.len() ==> path_parts(#[trigger] old(v)@[i]@) != path_parts(x@),
    ensures
        sorted_paths(strings_view(final(v)@)),
        exists|k: int| 0 <= k <= old(v)@.len() && strings_view(final(v)@) == strings_view(old(v)@).insert(k, x@),
{
    let n = v.len();
    let mut k: usize = 0;
    while k < n && !path_less(x.as_str(), v[k].as_str())
        invariant
            n == v@.len(),
            k <= n,
            forall|i: int| 0 <= i < k ==> !path_lt(x@, #[trigger] v@[i]@),
        decreases n - k,
    {
        k = k + 1;
    }
    let ghost old_view = strings_view(v@);
    let ghost xv = x@;
    v.insert(k, x);
    proof {
        let nv = strings_view(v@);
        assert(nv =~= old_view.insert(k as int, xv));
        assert forall|i: int, j: int| 0 <= i < j < nv.len() implies path_lt(nv[i], nv[j]) by {
            let pa = path_parts(nv[i]);
            let pb = path_parts(nv[j]);
            if j < k {
                assert(nv[i] == old_view[i] && nv[j] == old_view[j]);
            } else if i > k {
                assert(nv[i] == old_view[i - 1] && nv[j] == old_view[j - 1]);
            } else if i == k {
                // x before everything from position k on
                assert(path_lt(xv, old_view[k as int]));
                if j - 1 > k {
                    assert(path_lt(old_view[k as int], old_view[j - 1]));
                    lemma_parts_lt_order(path_parts(xv), path_parts(old_view[k as int]), path_parts(old_view[j - 1]));
                }
            } else if j == k {
                // everything before position k is before x
                assert(!path_lt(xv, old_view[i]));
                assert(path_parts(old_view[i]) != path_parts(xv));
                lemma_parts_lt_order(path_parts(old_view[i]), path_parts(xv), path_parts(xv));
            } else {
                assert(nv[i] == old_view[i] && nv[j] == old_view[j - 1]);
            }
        }
    }
}

/// The quadlet files among directory entries, in path order; or the first
/// two that share a file name, in listing order.
pub fn collect_quadlets(entries: &[String]) -> (r: Result<Vec<String>, DuplicateName>)
    ensures
        match r {
            Ok(v) => {
                &&& names_distinct(quadlet_paths(strings_view(entries@)))
                &&& sorted_paths(strings_view(v@))
                &&& strings_view(v@).len() == quadlet_paths(strings_view(entries@)).len()
                &&& strings_view(v@).to_set() == quadlet_paths(strings_view(entries@)).to_set()
            },
            Err(d) => {
                let q = quadlet_paths(strings_view(entries@));
                exists|i: int, j: int|
                    #![trigger q[i], q[j]]
                    0 <= i < j < q.len() && names_distinct(q.take(j)) && file_name_of(q[i])
                        == file_name_of(q[j]) && file_name_of(q[j]) == Some(d.name@) && d.first@
                        == q[i] && d.second@ == q[j]
            },
        },
{
    let ghost all = strings_view(entries@);
    let ghost pred = quadlet_test();
    let n = entries.len();
    let mut seen: Vec<String> = Vec::new();
    let mut idx: usize = 0;
    assert(all.take(0).filter(pred) =~= Seq::<Seq<char>>::empty());
    while idx < n
        invariant
            n == entries@.len(),
            all == strings_view(entries@),
            pred == quadlet_test(),
            idx <= n,
            strings_view(seen@) == all.take(idx as int).filter(pred),
            names_distinct(strings_view(seen@)),
            forall|t: int| 0 <= t < seen@.len() ==> file_name_of(#[trigger] seen@[t]@) is Some,
        decreases n - idx,
    {
        let e = &entries[idx];
        proof {
            assert(all.take(idx + 1).drop_last() =~= all.take(idx as int));
            assert(all.take(idx + 1).last() == e@);
            Seq::filter_distributes_over_add(all.take(idx + 1), all.skip(idx + 1), pred);
            assert(all.take(idx + 1) + all.skip(idx + 1) =~= all);
        }
        let keep = match extension_of_path(e.as_str()) {
            Some(ext) => is_quadlet_ext(ext.as_str()),
            None => false,
        };
        assert(keep == pred(e@));
        proof {
            reveal(Seq::filter);
            let s1 = all.take(idx + 1);
            assert(s1.len() > 0);
            assert(s1.filter(pred) == (if pred(s1.last()) {
                s1.drop_last().filter(pred).push(s1.last())
            } else {
                s1.drop_last().filter(pred)
            }));
        }
        if keep {
            let name = match file_name(e.as_str()) {
                Some(nm) => nm,
                None => {
                    proof {
                        assert(false);
                    }
                    String::new()
                },
            };
            let m = seen.len();
            let mut k: usize = 0;
            while k < m
                invariant
                    m == seen@.len(),
                    k <= m,
                    file_name_of(e@) == Some(name@),
                    forall|i: int| 0 <= i < k ==> file_name_of(#[trigger] seen@[i]@) != Some(name@),
                    all == strings_view(entries@),
                    idx < n,
                    n == entries@.len(),
                    e == entries@[idx as int],
                    pred(e@),
                    pred == quadlet_test(),
                    strings_view(seen@) == all.take(idx as int).filter(pred),
                    names_distinct(strings_view(seen@)),
                    all.take(idx + 1).filter(pred) == all.take(idx as int).filter(pred).push(e@),
                    all.filter(pred) == all.take(idx + 1).filter(pred) + all.skip(idx + 1).filter(pred),
                decreases m - k,
            {
                let other = file_name(seen[k].as_str());
                let clash = match &other {
                    Some(o) => same_text(o.as_str(), name.as_str()),
                    None => false,
                };
                if clash {
                    let first = seen[k].clone();
                    let second = e.clone();
                    proof {
                        let q = all.filter(pred);
                        let sv = strings_view(seen@);
                        assert(q.take(m as int) =~= sv);
                        assert(q[m as int] == e@);
                        assert(q[k as int] == sv[k as int]);
                        assert(file_name_of(q[k as int]) == file_name_of(q[m as int]));
                        assert(names_distinct(q.take(m as int)));
                        assert(q.len() > m);
                        assert(first@ == q[k as int]);
                        assert(second@ == q[m as int]);
                        assert(q == quadlet_paths(strings_view(entries@)));
                        let ki = k as int;
                        let mi = m as int;
                        assert(0 <= ki < mi < q.len() && names_distinct(q.take(mi)) && file_name_of(q[ki])
                            == file_name_of(q[mi]) && file_name_of(q[mi]) == Some(name@) && first@
                            == q[ki] && second@ == q[mi]);
                    }
                    return Err(DuplicateName { name, first, second });
                }
                k = k + 1;
            }
            let ghost before = strings_view(seen@);
            seen.push(e.clone());
            proof {
                assert(strings_view(seen@) =~= before.push(e@));
                assert(seen@[m as int]@ == e@);
                assert forall|i: int, j: int| 0 <= i < j < strings_view(seen@).len() implies file_name_of(strings_view(seen@)[i]) != file_name_of(strings_view(seen@)[j]) by {
                    if j == m {
                        assert(strings_view(seen@)[i] == seen@[i]@);
                    } else {
                        assert(strings_view(seen@)[i] == before[i]);
                        assert(strings_view(seen@)[j] == before[j]);
                    }
                }
            }
        }
        idx = idx + 1;
    }
    assert(all.take(n as int) =~= all);
    proof {
        assert forall|t: int| 0 <= t < strings_view(seen@).len() implies file_name_of(#[trigger] strings_view(seen@)[t]) is Some by {
            assert(strings_view(seen@)[t] == seen@[t]@);
        }
    }
    // sort by path
    let ghost q = strings_view(seen@);
    let mut sorted: Vec<String> = Vec::new();
    let m = seen.len();
    let mut i: usize = 0;
    proof {
        assert(strings_view(sorted@).to_set() =~= q.take(0).to_set());
    }
    while i < m
        invariant
            m == seen@.len(),
            q == strings_view(seen@),
            names_distinct(q),
            i <= m,
            sorted_paths(strings_view(sorted@)),
            strings_view(sorted@).len() == i,
            strings_view(sorted@).to_set() == q.take(i as int).to_set(),
            forall|y: Seq<char>| strings_view(sorted@).contains(y) ==> file_name_of(y) is Some,
            forall|t: int| 0 <= t < q.len() ==> file_name_of(#[trigger] q[t]) is Some,
        decreases m - i,
    {
        let x = seen[i].clone();
        proof {
            assert forall|t: int| 0 <= t < sorted@.len() implies path_parts(#[trigger] sorted@[t]@) != path_parts(x@) by {
                let y = strings_view(sorted@)[t];
                assert(strings_view(sorted@).contains(y));
                assert(q.take(i as int).to_set().contains(y));
                let u = choose|u: int| 0 <= u < i && q.take(i as int)[u] == y;
                assert(q[u] == y);
                assert(file_name_of(q[u]) != file_name_of(q[i as int]));
                lemma_distinct_names_distinct_parts(y, x@);
            }
        }
        let ghost before = strings_view(sorted@);
        insert_by_path(&mut sorted, x);
        proof {
            let k = choose|k: int| 0 <= k <= before.len() && strings_view(sorted@) == before.insert(k, q[i as int]);
            lemma_insert_to_set(before, k, q[i as int]);
            assert(q.take(i + 1) =~= q.take(i as int).push(q[i as int]));
            q.take(i as int).lemma_push_to_set_commute(q[i as int]);
            assert forall|y: Seq<char>| strings_view(sorted@).contains(y) implies file_name_of(y) is Some by {
                assert(strings_view(sorted@).to_set().contains(y));
                if y != q[i as int] {
                    assert(before.to_set().contains(y));
                    assert(before.contains(y));
                }
            }
        }
        i = i + 1;
    }
    assert(q.take(m as int) =~= q);
    Ok(sorted)
}

/// Whether a path names a `.container` quadlet.
pub open spec fn is_container_path(p: Seq<char>) -> bool {
    path_extension(p) == Some("container"@)
}

/// The unit each `.container` file among `files` defines: its file name's stem.
pub open spec fn container_units(files: Seq<Seq<char>>) -> Seq<Seq<char>>
    decreases files.len(),
{
    if files.len() == 0 {
        Seq::empty()
    } else {
        let rest = container_units(files.drop_last());
        let p = files.last();
        if is_container_path(p) {
            rest.push(stem_of(file_name_of(p).unwrap()))
        } else {
            rest
        }
    }
}

/// Whether texts are in strictly increasing order (so without repeats).
pub open spec fn strictly_sorted(v: Seq<Seq<char>>) -> bool {
    forall|i: int, j: int| 0 <= i < j < v.len() ==> text_lt(v[i], v[j])
}

fn insert_unique(v: &mut Vec<String>, x: String)
    requires
        strictly_sorted(strings_view(old(v)@)),
    ensures
        strictly_sorted(strings_view(final(v)@)),
        strings_view(final(v)@).to_set() == strings_view(old(v)@).to_set().insert(x@),
{
    let n = v.len();
    let mut k: usize = 0;
    while k < n && text_less(v[k].as_str(), x.as_str())
        invariant
            n == v@.len(),
            k <= n,
            forall|i: int| 0 <= i < k ==> text_lt(#[trigger] v@[i]@, x@),
        decreases n - k,
    {
        k = k + 1;
    }
    let ghost old_view = strings_view(v@);
    if k < n && same_text(v[k].as_str(), x.as_str()) {
        proof {
            assert(old_view[k as int] == x@);
            assert(old_view.contains(x@));
            assert(old_view.to_set().insert(x@) =~= old_view.to_set());
        }
        return;
    }
    let ghost xv = x@;
    v.insert(k, x);
    proof {
        let nv = strings_view(v@);
        assert(nv =~= old_view.insert(k as int, xv));
        lemma_insert_to_set(old_view, k as int, xv);
        assert forall|i: int, j: int| 0 <= i < j < nv.len() implies text_lt(nv[i], nv[j]) by {
            if j < k {
                assert(nv[i] == old_view[i] && nv[j] == old_view[j]);
            } else if i > k {
                assert(nv[i] == old_view[i - 1] && nv[j] == old_view[j - 1]);
            } else if i == k {
                assert(!text_lt(old_view[k as int], xv));
                assert(old_view[k as int] != xv);
                lemma_text_lt_order(xv, old_view[k as int], old_view[j - 1]);
                if j - 1 > k {
                    assert(text_lt(old_view[k as int], old_view[j - 1]));
                }
            } else if j == k {
                assert(text_lt(old_view[i], xv));
            } else {
                assert(nv[i] == old_view[i] && nv[j] == old_view[j - 1]);
            }
        }
    }
}

fn add_container_units(out: &mut Vec<String>, files: &[String])
    requires
        strictly_sorted(strings_view(old(out)@)),
    ensures
        strictly_sorted(strings_view(final(out)@)),
        strings_view(final(out)@).to_set() == strings_view(old(out)@).to_set() + container_units(
            strings_view(files@),
        ).to_set(),
{
    let ghost all = strings_view(files@);
    let ghost start = strings_view(out@).to_set();
    let n = files.len();
    let mut i: usize = 0;
    proof {
        assert(all.take(0) =~= Seq::<Seq<char>>::empty());
        assert(container_units(all.take(0)).to_set() =~= Set::<Seq<char>>::empty());
        assert(start + Set::<Seq<char>>::empty() =~= start);
    }
    while i < n
        invariant
            n == files@.len(),
            all == strings_view(files@),
            i <= n,
            strictly_sorted(strings_view(out@)),
            strings_view(out@).to_set() == start + container_units(all.take(i as int)).to_set(),
        decreases n - i,
    {
        let f = &files[i];
        proof {
            assert(all.take(i + 1).drop_last() =~= all.take(i as int));
            assert(all.take(i + 1).last() == f@);
        }
        let is_container = match extension_of_path(f.as_str()) {
            Some(ext) => {
                proof {
                    reveal_strlit("container");
                }
                same_text(ext.as_str(), "container")
            },
            None => false,
        };
        if is_container {
            match file_name(f.as_str()) {
                Some(name) => {
                    let unit = strip_dot_extension(name.as_str());
                    let ghost u = unit@;
                    insert_unique(out, unit);
                    proof {
                        container_units(all.take(i as int)).lemma_push_to_set_commute(u);
                        assert(strings_view(out@).to_set() =~= start + container_units(
                            all.take(i + 1),
                        ).to_set());
                    }
                },
                None => {
                    proof {
                        assert(false);
                    }
                },
            }
        }
        i = i + 1;
    }
    assert(all.take(n as int) =~= all);
}

/// The units to act on: the one named (without its extension) when a service
/// is given; else every unit of a `.container` file among the source files and
/// the installed files, sorted, each once.
pub fn resolve_targets(service: Option<&str>, source_files: &[String], installed_files: &[String]) -> (r: Vec<String>)
    ensures
        match service {
            Some(s) => strings_view(r@) == seq![stem_of(s@)],
            None => {
                &&& strictly_sorted(strings_view(r@))
                &&& strings_view(r@).to_set() == container_units(strings_view(source_files@)).to_set()
                    + container_units(strings_view(installed_files@)).to_set()
            },
        },
{
    match service {
        Some(s) => {
            let mut out: Vec<String> = Vec::new();
            out.push(strip_dot_extension(s));
            assert(strings_view(out@) =~= seq![stem_of(s@)]);
            out
        },
        None => {
            let mut out: Vec<String> = Vec::new();
            assert(strings_view(out@).to_set() =~= Set::<Seq<char>>::empty());
            add_container_units(&mut out, source_files);
            add_container_units(&mut out, installed_files);
            assert(Set::<Seq<char>>::empty() + container_units(strings_view(source_files@)).to_set()
                =~= container_units(strings_view(source_files@)).to_set());
            out
        },
    }
}

} // verus!
