//! Ordering and membership helpers for the strings that name dependencies
//! and features.

use vstd::prelude::*;

verus! {

/// Lexicographic "less than or equal" on character sequences, comparing
/// Unicode scalar values position by position.
pub open spec fn chars_le(a: Seq<char>, b: Seq<char>) -> bool
    decreases a.len(),
{
    if a.len() == 0 {
        true
    } else if b.len() == 0 {
        false
    } else if a[0] as u32 == b[0] as u32 {
        chars_le(a.skip(1), b.skip(1))
    } else {
        (a[0] as u32) < (b[0] as u32)
    }
}

proof fn lemma_chars_le_common_prefix(a: Seq<char>, b: Seq<char>, i: int)
    requires
        0 <= i <= a.len(),
        i <= b.len(),
        forall|j: int| 0 <= j < i ==> a[j] as u32 == b[j] as u32,
    ensures
        chars_le(a, b) == chars_le(a.skip(i), b.skip(i)),
    decreases i,
{
    if i > 0 {
        assert(a.skip(1).skip(i - 1) =~= a.skip(i));
        assert(b.skip(1).skip(i - 1) =~= b.skip(i));
        lemma_chars_le_common_prefix(a.skip(1), b.skip(1), i - 1);
    } else {
        assert(a.skip(0) =~= a);
        assert(b.skip(0) =~= b);
    }
}

/// `chars_le` compares any two sequences one way or the other.
pub proof fn lemma_chars_le_total(a: Seq<char>, b: Seq<char>)
    ensures
        chars_le(a, b) || chars_le(b, a),
    decreases a.len(),
{
    if a.len() > 0 && b.len() > 0 && a[0] as u32 == b[0] as u32 {
        lemma_chars_le_total(a.skip(1), b.skip(1));
    }
}

/// `chars_le` relates every sequence to itself.
pub proof fn lemma_chars_le_refl(a: Seq<char>)
    ensures
        chars_le(a, a),
    decreases a.len(),
{
    if a.len() > 0 {
        lemma_chars_le_refl(a.skip(1));
    }
}

/// `chars_le` is transitive.
pub proof fn lemma_chars_le_trans(a: Seq<char>, b: Seq<char>, c: Seq<char>)
    requires
        chars_le(a, b),
        chars_le(b, c),
    ensures
        chars_le(a, c),
    decreases a.len(),
{
    if a.len() > 0 && b.len() > 0 && c.len() > 0 && a[0] as u32 == b[0] as u32 && b[0] as u32
        == c[0] as u32 {
        lemma_chars_le_trans(a.skip(1), b.skip(1), c.skip(1));
    }
}

/// Decide `chars_le(a@, b@)` for two string slices.
pub fn str_le(a: &str, b: &str) -> (r: bool)
    ensures
        r == chars_le(a@, b@),
{
    let a_len = a.unicode_len();
    let b_len = b.unicode_len();
    let mut i: usize = 0;
    loop
        invariant
            i <= a_len,
            i <= b_len,
            a_len == a@.len(),
            b_len == b@.len(),
            forall|j: int| 0 <= j < i ==> a@[j] as u32 == b@[j] as u32,
        decreases a_len - i,
    {
        proof {
            lemma_chars_le_common_prefix(a@, b@, i as int);
        }
        if i >= a_len {
            return true;
        }
        if i >= b_len {
            return false;
        }
        let ca = a.get_char(i) as u32;
        let cb = b.get_char(i) as u32;
        if ca != cb {
            return ca < cb;
        }
        i = i + 1;
    }
}

/// Decide whether two strings read the same.
pub fn string_eq(a: &String, b: &String) -> (r: bool)
    ensures
        r == (a@ == b@),
{
    a.eq(b)
}

/// Whether `s` names `key` somewhere.
pub fn contains_string(s: &Vec<String>, key: &String) -> (r: bool)
    ensures
        r == s.deep_view().contains(key@),
{
    let mut i: usize = 0;
    while i < s.len()
        invariant
            i <= s.len(),
            forall|j: int| 0 <= j < i ==> s.deep_view()[j] != key@,
        decreases s.len() - i,
    {
        assert(s.deep_view()[i as int] == s[i as int]@);
        if string_eq(&s[i], key) {
            assert(s.deep_view()[i as int] == key@);
            return true;
        }
        i = i + 1;
    }
    assert(forall|j: int| 0 <= j < s.deep_view().len() ==> s.deep_view()[j] != key@);
    false
}

/// Non-decreasing lexicographic order over a sequence of strings.
pub open spec fn strings_sorted(s: Seq<Seq<char>>) -> bool {
    forall|i: int, j: int| 0 <= i < j < s.len() ==> chars_le(s[i], s[j])
}

/// Whether the given keys already stand in non-decreasing order.
pub fn is_sorted(keys: &Vec<String>) -> (r: bool)
    ensures
        r == strings_sorted(keys.deep_view()),
{
    let ghost ks = keys.deep_view();
    let mut i: usize = 1;
    if keys.len() == 0 {
        return true;
    }
    while i < keys.len()
        invariant
            1 <= i <= keys.len(),
            ks == keys.deep_view(),
            ks.len() == keys.len(),
            forall|p: int, q: int| 0 <= p < q < i ==> chars_le(ks[p], ks[q]),
        decreases keys.len() - i,
    {
        assert(ks[i - 1] == keys[i - 1]@);
        assert(ks[i as int] == keys[i as int]@);
        if !str_le(keys[i - 1].as_str(), keys[i].as_str()) {
            proof {
                lemma_chars_le_total(ks[i - 1], ks[i as int]);
            }
            return false;
        }
        proof {
            assert forall|p: int, q: int| 0 <= p < q < i + 1 implies chars_le(ks[p], ks[q]) by {
                if q == i && p < i - 1 {
                    lemma_chars_le_trans(ks[p], ks[i - 1], ks[q]);
                }
            }
        }
        i = i + 1;
    }
    true
}

/// The position of a string that precedes every other in `v`.
fn min_string_idx(v: &Vec<String>) -> (m: usize)
    requires
        v@.len() > 0,
    ensures
        m < v@.len(),
        forall|q: int| 0 <= q < v@.len() ==> chars_le(v@[m as int]@, (#[trigger] v@[q])@),
{
    let mut m: usize = 0;
    let mut i: usize = 1;
    proof {
        lemma_chars_le_refl(v@[0]@);
    }
    while i < v.len()
        invariant
            1 <= i <= v@.len(),
            m < i,
            forall|q: int| 0 <= q < i ==> chars_le(v@[m as int]@, (#[trigger] v@[q])@),
        decreases v@.len() - i,
    {
        if str_le(v[i].as_str(), v[m].as_str()) {
            proof {
                lemma_chars_le_refl(v@[i as int]@);
                assert forall|q: int| 0 <= q < i + 1 implies chars_le(
                    v@[i as int]@,
                    (#[trigger] v@[q])@,
                ) by {
                    if q < i {
                        lemma_chars_le_trans(v@[i as int]@, v@[m as int]@, v@[q]@);
                    }
                }
            }
            m = i;
        } else {
            proof {
                lemma_chars_le_total(v@[i as int]@, v@[m as int]@);
            }
        }
        i = i + 1;
    }
    m
}

/// Re-order strings into non-decreasing lexicographic order.
pub fn sort_strings(input: Vec<String>) -> (r: Vec<String>)
    ensures
        r.deep_view().to_multiset() == input.deep_view().to_multiset(),
        strings_sorted(r.deep_view()),
{
    broadcast use vstd::seq_lib::group_to_multiset_ensures;
    broadcast use vstd::multiset::group_multiset_axioms;

    let ghost in0 = input.deep_view();
    let mut rest = input;
    let mut out: Vec<String> = Vec::new();
    while rest.len() > 0
        invariant
            out.deep_view().to_multiset().add(rest.deep_view().to_multiset()) =~= in0.to_multiset(),
            strings_sorted(out.deep_view()),
            forall|p: int, q: int|
                0 <= p < out@.len() && 0 <= q < rest@.len() ==> chars_le(
                    (#[trigger] out@[p])@,
                    (#[trigger] rest@[q])@,
                ),
        decreases rest.len(),
    {
        let ghost out_v = out.deep_view();
        let ghost rest_v = rest.deep_view();
        let m = min_string_idx(&rest);
        let e = rest.remove(m);
        let ghost ev = e@;
        out.push(e);
        proof {
            let out_v1 = out.deep_view();
            let rest_v1 = rest.deep_view();
            assert(rest_v1 =~= rest_v.remove(m as int));
            assert(out_v1 =~= out_v.push(ev));
            assert(rest_v[m as int] == ev);
            assert(rest_v.contains(ev));
            rest_v.to_multiset_ensures();
            assert(rest_v.to_multiset().count(ev) > 0);
            vstd::seq_lib::to_multiset_build(out_v, ev);
            assert(out_v1 == out_v.push(ev));
            assert(out_v1.to_multiset() == out_v.to_multiset().insert(ev));
            vstd::seq_lib::to_multiset_remove(rest_v, m as int);
            assert(rest_v1 == rest_v.remove(m as int));
            assert(rest_v1.to_multiset() == rest_v.to_multiset().remove(ev));
            assert(out_v1.to_multiset().add(rest_v1.to_multiset()) =~= in0.to_multiset());
            assert forall|p: int, q: int| 0 <= p < q < out_v1.len() implies chars_le(
                out_v1[p],
                out_v1[q],
            ) by {
                if q == out_v1.len() - 1 {
                    assert(chars_le(out@[p]@, ev));
                } else {
                    assert(out_v1[p] == out_v[p]);
                    assert(out_v1[q] == out_v[q]);
                }
            }
            assert forall|p: int, q: int|
                0 <= p < out@.len() && 0 <= q < rest@.len() implies chars_le(
                (#[trigger] out@[p])@,
                (#[trigger] rest@[q])@,
            ) by {
                let qq = if q < m as int {
                    q
                } else {
                    q + 1
                };
                assert(rest@[q]@ == rest_v1[q]);
                assert(rest_v1[q] == rest_v[qq]);
                if p < out@.len() - 1 {
                    assert(out@[p]@ == out_v[p]);
                    assert(chars_le(out_v[p], rest_v[qq]));
                } else {
                    assert(out@[p]@ == ev);
                    assert(chars_le(ev, rest_v[qq]));
                }
            }
        }
    }
    assert(rest.deep_view().to_multiset() =~= Seq::<Seq<char>>::empty().to_multiset());
    assert(out.deep_view().to_multiset() =~= in0.to_multiset());
    out
}

/// A directory separator inside a path.
pub open spec fn is_path_sep(c: char) -> bool {
    c == '/' || c == '\\'
}

/// The position of the last separator of `p`, or `-1` when it has none.
pub open spec fn last_sep(p: Seq<char>) -> int
    decreases p.len(),
{
    if p.len() == 0 {
        -1
    } else if is_path_sep(p.last()) {
        p.len() - 1
    } else {
        last_sep(p.drop_last())
    }
}

/// The directory part of a path: everything before its last separator,
/// or nothing when it has none.
pub open spec fn parent_of(p: Seq<char>) -> Seq<char> {
    if last_sep(p) < 0 {
        Seq::empty()
    } else {
        p.take(last_sep(p))
    }
}

proof fn lemma_last_sep_at(p: Seq<char>, k: int)
    requires
        0 <= k < p.len(),
        is_path_sep(p[k]),
        forall|j: int| k < j < p.len() ==> !is_path_sep(#[trigger] p[j]),
    ensures
        last_sep(p) == k,
    decreases p.len(),
{
    if k < p.len() - 1 {
        assert(!is_path_sep(p.last()));
        assert(p.drop_last()[k] == p[k]);
        lemma_last_sep_at(p.drop_last(), k);
    }
}

proof fn lemma_last_sep_none(p: Seq<char>)
    requires
        forall|j: int| 0 <= j < p.len() ==> !is_path_sep(#[trigger] p[j]),
    ensures
        last_sep(p) == -1,
    decreases p.len(),
{
    if p.len() > 0 {
        lemma_last_sep_none(p.drop_last());
    }
}

/// The directory a file path points into.
pub fn parent_dir(p: &str) -> (r: String)
    ensures
        r@ == parent_of(p@),
{
    let n = p.unicode_len();
    let mut found = false;
    let mut k: usize = 0;
    let mut i: usize = 0;
    while i < n
        invariant
            i <= n,
            n == p@.len(),
            found ==> k < i && is_path_sep(p@[k as int]) && forall|j: int|
                k < j < i ==> !is_path_sep(#[trigger] p@[j]),
            !found ==> forall|j: int| 0 <= j < i ==> !is_path_sep(#[trigger] p@[j]),
        decreases n - i,
    {
        let c = p.get_char(i);
        if c == '/' || c == '\\' {
            found = true;
            k = i;
        }
        i = i + 1;
    }
    if found {
        proof {
            lemma_last_sep_at(p@, k as int);
        }
        let d = p.substring_char(0, k).to_owned();
        assert(d@ =~= parent_of(p@));
        d
    } else {
        proof {
            lemma_last_sep_none(p@);
        }
        let d = String::new();
        assert(d@ =~= parent_of(p@));
        d
    }
}

/// Whether `item` activates a feature of the dependency `name`: it reads
/// `<name>/<feature>` or `<name>?/<feature>`.
pub open spec fn is_feature_qualifier(item: Seq<char>, name: Seq<char>) -> bool {
    ||| (item.len() > name.len() && item.subrange(0, name.len() as int) == name && item[name.len() as int]
        == '/')
    ||| (item.len() > name.len() + 1 && item.subrange(0, name.len() as int) == name
        && item[name.len() as int] == '?' && item[name.len() as int + 1] == '/')
}

/// Decide `is_feature_qualifier(item@, name@)`.
pub fn qualifier_for(item: &String, name: &String) -> (r: bool)
    ensures
        r == is_feature_qualifier(item@, name@),
{
    let item_s = item.as_str();
    let name_s = name.as_str();
    let item_len = item_s.unicode_len();
    let name_len = name_s.unicode_len();
    if item_len <= name_len {
        return false;
    }
    let mut i: usize = 0;
    while i < name_len
        invariant
            i <= name_len,
            name_len == name@.len(),
            item_len == item@.len(),
            item_len > name_len,
            item_s@ == item@,
            name_s@ == name@,
            forall|j: int| 0 <= j < i ==> item@[j] == name@[j],
        decreases name_len - i,
    {
        if item_s.get_char(i) != name_s.get_char(i) {
            assert(item@.subrange(0, name@.len() as int)[i as int] != name@[i as int]);
            return false;
        }
        i = i + 1;
    }
    assert(item@.subrange(0, name@.len() as int) =~= name@);
    let next = item_s.get_char(name_len);
    if next == '/' {
        return true;
    }
    if next == '?' && name_len + 1 < item_len {
        let after = item_s.get_char(name_len + 1);
        return after == '/';
    }
    false
}

} // verus!
