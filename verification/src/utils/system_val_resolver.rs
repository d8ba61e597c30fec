//! Values that differ by operating system: a string, a list of strings, or
//! a table whose keys name operating systems joined by `+`.

use vstd::prelude::*;
use vstd::string::*;
use crate::types::release_config::{ConfigValue, string_views};
use crate::utils::text::{trim, trim_spec, str_equal};

verus! {

/// The strings among `items`, in order.
pub open spec fn text_items(items: Seq<ConfigValue>) -> Seq<Seq<char>>
    decreases items.len(),
{
    if items.len() == 0 {
        Seq::empty()
    } else {
        text_items(items.drop_last()) + match items.last() {
            ConfigValue::Text(s) => seq![s@],
            _ => Seq::<Seq<char>>::empty(),
        }
    }
}

/// The strings a value stands for by itself: a string stands for itself, a
/// list for the strings among its items; anything else for nothing.
pub open spec fn direct_values(v: ConfigValue) -> Seq<Seq<char>> {
    match v {
        ConfigValue::Text(s) => seq![s@],
        ConfigValue::List(items) => text_items(items@),
        _ => Seq::empty(),
    }
}

/// The parts of `s` between the `+` signs, as `str::split("+")` yields them.
pub open spec fn plus_segments(s: Seq<char>) -> Seq<Seq<char>>
    decreases s.len(),
{
    if s.len() == 0 {
        seq![Seq::<char>::empty()]
    } else {
        let prev = plus_segments(s.drop_last());
        if s.last() == '+' {
            prev.push(Seq::empty())
        } else {
            prev.update(prev.len() - 1, prev.last().push(s.last()))
        }
    }
}

/// The parts of `segs` joined with `+` between them.
pub open spec fn join_plus(segs: Seq<Seq<char>>) -> Seq<char>
    decreases segs.len(),
{
    if segs.len() == 0 {
        Seq::empty()
    } else if segs.len() == 1 {
        segs[0]
    } else {
        join_plus(segs.drop_last()) + seq!['+'] + segs.last()
    }
}

/// The parts of a key are what lies between its `+` signs: there is at
/// least one, none of them holds a `+`, and joined with `+` they give the
/// key back.
pub proof fn law_plus_segments_split_key(s: Seq<char>)
    ensures
        plus_segments(s).len() >= 1,
        join_plus(plus_segments(s)) == s,
        forall|k: int| 0 <= k < plus_segments(s).len() ==> !(#[trigger] plus_segments(s)[k]).contains('+'),
    decreases s.len(),
{
    if s.len() > 0 {
        let prev = plus_segments(s.drop_last());
        law_plus_segments_split_key(s.drop_last());
        let segs = plus_segments(s);
        let c = s.last();
        if c == '+' {
            assert(segs == prev.push(Seq::empty()));
            assert(segs.drop_last() =~= prev);
            assert(join_plus(segs) =~= s);
            assert forall|k: int| 0 <= k < segs.len() implies !(#[trigger] segs[k]).contains('+') by {
                if k < prev.len() {
                    assert(segs[k] == prev[k]);
                } else {
                    assert(segs[k] =~= Seq::<char>::empty());
                }
            }
        } else {
            let x = prev.last().push(c);
            assert(segs == prev.update(prev.len() - 1, x));
            if prev.len() == 1 {
                assert(join_plus(segs) == segs[0]);
                assert(join_plus(segs) =~= s);
            } else {
                assert(segs.drop_last() =~= prev.drop_last());
                assert(segs.last() == x);
                assert(join_plus(segs) == join_plus(prev.drop_last()) + seq!['+'] + x);
                assert(join_plus(prev) == join_plus(prev.drop_last()) + seq!['+'] + prev.last());
                assert(join_plus(segs) =~= join_plus(prev).push(c));
                assert(s.drop_last().push(c) =~= s);
            }
            assert forall|k: int| 0 <= k < segs.len() implies !(#[trigger] segs[k]).contains('+') by {
                if k < prev.len() - 1 {
                    assert(segs[k] == prev[k]);
                } else {
                    assert(segs[k] == x);
                    assert(!prev[k].contains('+'));
                    assert forall|j: int| 0 <= j < x.len() implies x[j] != '+' by {
                        if j < prev[k].len() {
                            assert(x[j] == prev[k][j]);
                        }
                    }
                }
            }
        }
    } else {
        assert(plus_segments(s) =~= seq![Seq::<char>::empty()]);
    }
}

/// Every part of a key counts, wherever it stands in the key: when any one
/// of them, trimmed, is `os`, the key names `os`; and only then.
pub proof fn law_every_part_of_key_counts(key: Seq<char>, os: Seq<char>, k: int)
    ensures
        0 <= k < plus_segments(key).len() && trim_spec(plus_segments(key)[k]) == os ==> key_names_os(key, os),
        key_names_os(key, os) ==> exists|j: int| 0 <= j < plus_segments(key).len() && #[trigger] trim_spec(plus_segments(key)[j]) == os,
{
}

/// Whether one of the `+`-separated parts of `key`, trimmed, is `os`.
pub open spec fn key_names_os(key: Seq<char>, os: Seq<char>) -> bool {
    exists|k: int| 0 <= k < plus_segments(key).len() && #[trigger] trim_spec(plus_segments(key)[k]) == os
}

/// The strings of the first entry whose key names `os`.
pub open spec fn first_os_entry_values(entries: Seq<(String, ConfigValue)>, os: Seq<char>) -> Seq<Seq<char>>
    decreases entries.len(),
{
    if entries.len() == 0 {
        Seq::empty()
    } else if key_names_os(entries[0].0@, os) {
        direct_values(entries[0].1)
    } else {
        first_os_entry_values(entries.drop_first(), os)
    }
}

/// The strings that `v` stands for on the operating system `os`.
pub open spec fn system_values(v: ConfigValue, os: Seq<char>) -> Seq<Seq<char>> {
    match v {
        ConfigValue::Text(_) => direct_values(v),
        ConfigValue::List(_) => direct_values(v),
        ConfigValue::Table(entries) => first_os_entry_values(entries@, os),
        _ => Seq::empty(),
    }
}

/// Whether `key`, a list of operating-system names joined by `+`, names `os`.
pub fn key_matches_os(key: &str, os: &str) -> (r: bool)
    ensures
        r == key_names_os(key@, os@),
{
    let n = key.unicode_len();
    let mut found = false;
    let mut st: usize = 0;
    let mut i: usize = 0;
    let ghost mut done: Seq<Seq<char>> = Seq::empty();
    proof {
        assert(key@.take(0) =~= Seq::<char>::empty());
        assert(done.push(key@.subrange(0, 0)) =~= seq![Seq::<char>::empty()]);
    }
    while i < n
        invariant
            n == key@.len(),
            st <= i <= n,
            plus_segments(key@.take(i as int)) == done.push(key@.subrange(st as int, i as int)),
            found == exists|k: int| 0 <= k < done.len() && #[trigger] trim_spec(done[k]) == os@,
        decreases n - i,
    {
        let c = key.get_char(i);
        proof {
            assert(key@.take(i + 1).drop_last() =~= key@.take(i as int));
            assert(key@.take(i + 1).last() == c);
        }
        if c == '+' {
            let piece = key.substring_char(st, i);
            let t = trim(piece);
            let hit = str_equal(t, os);
            proof {
                let old_done = done;
                done = done.push(piece@);
                assert(done[old_done.len() as int] == piece@);
                if hit {
                    assert(trim_spec(done[old_done.len() as int]) == os@);
                }
                if found {
                    let k = choose|k: int| 0 <= k < old_done.len() && #[trigger] trim_spec(old_done[k]) == os@;
                    assert(done[k] == old_done[k]);
                }
                assert forall|k: int| 0 <= k < done.len() && #[trigger] trim_spec(done[k]) == os@ implies (found || hit) by {
                    if k < old_done.len() {
                        assert(done[k] == old_done[k]);
                    }
                }
                assert(key@.subrange((i + 1) as int, (i + 1) as int) =~= Seq::<char>::empty());
            }
            found = found || hit;
            st = i + 1;
        } else {
            proof {
                assert(key@.subrange(st as int, i + 1) =~= key@.subrange(st as int, i as int).push(c));
                let prev = done.push(key@.subrange(st as int, i as int));
                assert(prev.update(prev.len() - 1, prev.last().push(c)) =~= done.push(key@.subrange(st as int, i + 1)));
            }
        }
        i = i + 1;
    }
    let piece = key.substring_char(st, n);
    let t = trim(piece);
    let hit = str_equal(t, os);
    proof {
        assert(key@.take(n as int) =~= key@);
        let segs = done.push(piece@);
        assert(segs[done.len() as int] == piece@);
        if hit {
            assert(trim_spec(segs[done.len() as int]) == os@);
        }
        if found {
            let k = choose|k: int| 0 <= k < done.len() && #[trigger] trim_spec(done[k]) == os@;
            assert(segs[k] == done[k]);
        }
        if key_names_os(key@, os@) {
            let k = choose|k: int| 0 <= k < segs.len() && #[trigger] trim_spec(segs[k]) == os@;
            if k < done.len() {
                assert(segs[k] == done[k]);
            }
        }
    }
    found || hit
}

/// Appends the strings that `val` stands for by itself to `v`.
fn push_arr_and_str_val(val: &ConfigValue, v: &mut Vec<String>)
    ensures
        string_views(final(v)@) == string_views(old(v)@) + direct_values(*val),
{
    match val {
        ConfigValue::Text(s) => {
            v.push(s.clone());
            assert(string_views(v@) =~= string_views(old(v)@) + direct_values(*val));
        },
        ConfigValue::List(items) => {
            let mut i: usize = 0;
            while i < items.len()
                invariant
                    i <= items.len(),
                    string_views(v@) == string_views(old(v)@) + text_items(items@.take(i as int)),
                decreases items.len() - i,
            {
                proof {
                    assert(items@.take(i + 1).drop_last() =~= items@.take(i as int));
                    assert(items@.take(i + 1).last() == items@[i as int]);
                }
                match &items[i] {
                    ConfigValue::Text(s) => {
                        let ghost before = v@;
                        v.push(s.clone());
                        assert(text_items(items@.take(i + 1)) == text_items(items@.take(i as int)) + seq![s@]);
                        assert(string_views(v@) =~= string_views(before) + seq![s@]);
                        assert(string_views(v@) =~= string_views(old(v)@) + text_items(items@.take(i + 1)));
                    },
                    _ => {
                        assert(!(items@[i as int] is Text));
                        assert(text_items(items@.take(i + 1)) =~= text_items(items@.take(i as int)));
                        assert(string_views(v@) =~= string_views(old(v)@) + text_items(items@.take(i + 1)));
                    },
                }
                i = i + 1;
            }
            assert(items@.take(items.len() as int) =~= items@);
        },
        _ => {
            assert(string_views(v@) =~= string_views(old(v)@) + direct_values(*val));
        },
    }
}

/// The strings that `val` stands for on the operating system `os`: a string
/// gives itself, a list the strings among its items, a table the strings of
/// its first entry whose key names `os`; anything else gives none.
pub fn resolve_system_dependent_value_config(val: &ConfigValue, os: &str) -> (r: Vec<String>)
    ensures
        string_views(r@) == system_values(*val, os@),
{
    let mut v: Vec<String> = Vec::new();
    assert(string_views(v@) =~= Seq::<Seq<char>>::empty());
    match val {
        ConfigValue::Text(_) | ConfigValue::List(_) => {
            push_arr_and_str_val(val, &mut v);
            assert(string_views(v@) =~= system_values(*val, os@));
        },
        ConfigValue::Table(entries) => {
            let mut i: usize = 0;
            assert(entries@.skip(0) =~= entries@);
            while i < entries.len()
                invariant
                    i <= entries.len(),
                    string_views(v@) == Seq::<Seq<char>>::empty(),
                    system_values(*val, os@) == first_os_entry_values(entries@, os@),
                    first_os_entry_values(entries@, os@) == first_os_entry_values(entries@.skip(i as int), os@),
                decreases entries.len() - i,
            {
                let ghost rest = entries@.skip(i as int);
                assert(rest[0] == entries@[i as int]);
                assert(rest.len() > 0);
                if key_matches_os(entries[i].0.as_str(), os) {
                    assert(first_os_entry_values(rest, os@) == direct_values(entries@[i as int].1));
                    push_arr_and_str_val(&entries[i].1, &mut v);
                    assert(string_views(v@) =~= direct_values(entries@[i as int].1));
                    assert(system_values(*val, os@) == first_os_entry_values(entries@, os@));
                    assert(string_views(v@) =~= system_values(*val, os@));
                    return v;
                }
                assert(rest.drop_first() =~= entries@.skip(i + 1));
                i = i + 1;
            }
            assert(entries@.skip(i as int) =~= Seq::<(String, ConfigValue)>::empty());
        },
        _ => {},
    }
    v
}

} // verus!
