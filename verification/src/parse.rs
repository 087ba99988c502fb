//! Parsing of raw crate tokens into dependency specs.
//!
//! A token is either a local path (it holds a path separator or starts
//! with a dot), a package reference `name` or `name@req`, or — when it
//! starts with `+` — a feature list that attaches to the spec parsed
//! just before it.

use vstd::prelude::*;

use crate::args::{AddArgs, UnstableOptions};
use crate::dep::{DependencySpec, DependencySpecView, SpecKind, SpecKindView};
use crate::errors::{EditError, Warning};

verus! {

/// A separator inside a feature list.
pub open spec fn is_feat_sep(c: char) -> bool {
    c == ' ' || c == ','
}

/// The feature names of a raw feature text, scanned left to right with
/// the names collected so far in `acc` and the run being read in `cur`.
pub open spec fn split_feats_from(
    s: Seq<char>,
    i: int,
    cur: Seq<char>,
) -> Seq<Seq<char>>
    decreases s.len() - i,
{
    if i < 0 || i >= s.len() {
        if cur.len() > 0 {
            seq![cur]
        } else {
            seq![]
        }
    } else if is_feat_sep(s[i]) {
        (if cur.len() > 0 {
            seq![cur]
        } else {
            seq![]
        }) + split_feats_from(s, i + 1, seq![])
    } else {
        split_feats_from(s, i + 1, cur.push(s[i]))
    }
}

/// The feature names of a raw feature text: split on spaces and
/// commas, empty segments discarded.
pub open spec fn split_feats(s: Seq<char>) -> Seq<Seq<char>> {
    split_feats_from(s, 0, seq![])
}

/// Split a feature text on spaces and commas, dropping empty segments.
pub fn parse_feature(feature: &str) -> (r: Vec<String>)
    ensures
        r.deep_view() == split_feats(feature@),
{
    let n = feature.unicode_len();
    let mut r: Vec<String> = Vec::new();
    let mut start: usize = 0;
    let mut i: usize = 0;
    proof {
        assert(feature@.subrange(0, 0) =~= Seq::<char>::empty());
        assert(r.deep_view() + split_feats_from(feature@, 0, Seq::<char>::empty()) =~= split_feats(
            feature@,
        ));
    }
    while i < n
        invariant
            0 <= start <= i <= n,
            n == feature@.len(),
            forall|j: int| start <= j < i ==> !is_feat_sep(feature@[j]),
            r.deep_view() + split_feats_from(
                feature@,
                i as int,
                feature@.subrange(start as int, i as int),
            ) =~= split_feats(feature@),
        decreases n - i,
    {
        let ghost cur = feature@.subrange(start as int, i as int);
        let ghost r0 = r.deep_view();
        let c = feature.get_char(i);
        if c == ' ' || c == ',' {
            proof {
                assert(is_feat_sep(feature@[i as int]));
                assert(split_feats_from(feature@, i as int, cur) == (if cur.len() > 0 {
                    seq![cur]
                } else {
                    seq![]
                }) + split_feats_from(feature@, i as int + 1, Seq::<char>::empty()));
            }
            if i > start {
                let tok = feature.substring_char(start, i).to_owned();
                r.push(tok);
                assert(r.deep_view() =~= r0.push(cur));
                assert(r.deep_view() =~= r0 + seq![cur]);
            }
            proof {
                let tail = split_feats_from(feature@, i as int + 1, Seq::<char>::empty());
                let mid: Seq<Seq<char>> = if cur.len() > 0 {
                    seq![cur]
                } else {
                    seq![]
                };
                assert((r0 + mid) + tail =~= r0 + (mid + tail));
                assert(r.deep_view() =~= r0 + mid);
            }
            start = i + 1;
            assert(feature@.subrange(start as int, i as int + 1) =~= Seq::<char>::empty());
        } else {
            assert(feature@.subrange(start as int, i as int + 1) =~= cur.push(feature@[i as int]));
        }
        i = i + 1;
    }
    if i > start {
        let tok = feature.substring_char(start, i).to_owned();
        let ghost r0 = r.deep_view();
        r.push(tok);
        assert(r.deep_view() =~= r0.push(feature@.subrange(start as int, i as int)));
    }
    assert(r.deep_view() =~= split_feats(feature@));
    r
}

/// A token that appends features to the spec before it.
pub open spec fn is_feature_token(t: Seq<char>) -> bool {
    t.len() > 0 && t[0] == '+'
}

/// A token read as a local path: it holds a path separator or starts
/// with a dot, which no package name does.
pub open spec fn is_path_token(t: Seq<char>) -> bool {
    (exists|i: int| 0 <= i < t.len() && ((#[trigger] t[i]) == '/' || t[i] == '\\')) || (t.len() > 0
        && t[0] == '.')
}

/// The position of the first `@` of `t`, or its length when there is
/// none.
pub open spec fn first_at(t: Seq<char>) -> int
    decreases t.len(),
{
    if t.len() == 0 {
        0
    } else if t[0] == '@' {
        0
    } else {
        1 + first_at(t.skip(1))
    }
}

proof fn lemma_first_at(t: Seq<char>, i: int)
    requires
        0 <= i <= t.len(),
        forall|j: int| 0 <= j < i ==> t[j] != '@',
        i < t.len() ==> t[i] == '@',
    ensures
        first_at(t) == i,
    decreases t.len(),
{
    if t.len() > 0 && t[0] != '@' {
        lemma_first_at(t.skip(1), i - 1);
    }
}

/// A package token with an empty name or an empty version requirement.
pub open spec fn invalid_spec_token(t: Seq<char>) -> bool {
    !is_feature_token(t) && !is_path_token(t) && (first_at(t) == 0 || first_at(t) == t.len() - 1)
}

/// The spec a single non-feature token stands for.
pub open spec fn spec_kind_of(t: Seq<char>) -> SpecKindView {
    if is_path_token(t) {
        SpecKindView::LocalPath { path: t }
    } else {
        let i = first_at(t);
        if i == t.len() {
            SpecKindView::PkgId { name: t, version_req: None }
        } else {
            SpecKindView::PkgId { name: t.take(i), version_req: Some(t.skip(i + 1)) }
        }
    }
}

/// The position of the first `@` of `t`, if any.
fn find_first_at(t: &str) -> (r: Option<usize>)
    ensures
        r matches Some(a) ==> a < t@.len() && t@[a as int] == '@' && forall|j: int|
            0 <= j < a ==> t@[j] != '@',
        r is None ==> forall|j: int| 0 <= j < t@.len() ==> t@[j] != '@',
{
    let n = t.unicode_len();
    let mut i: usize = 0;
    while i < n
        invariant
            i <= n,
            n == t@.len(),
            forall|j: int| 0 <= j < i ==> t@[j] != '@',
        decreases n - i,
    {
        if t.get_char(i) == '@' {
            return Some(i);
        }
        i = i + 1;
    }
    None
}

/// Classify one non-feature token.
fn parse_one_token(token: &String) -> (r: Result<SpecKind, EditError>)
    requires
        !is_feature_token(token@),
    ensures
        r is Err <==> invalid_spec_token(token@),
        r is Err ==> r == Err::<SpecKind, EditError>(EditError::InvalidCrateSpec),
        r matches Ok(k) ==> k@ == spec_kind_of(token@),
{
    let t = token.as_str();
    let n = t.unicode_len();
    let mut path_like = false;
    if n > 0 && t.get_char(0) == '.' {
        path_like = true;
    }
    let mut i: usize = 0;
    while i < n
        invariant
            i <= n,
            n == t@.len(),
            t@ == token@,
            path_like == ((exists|j: int|
                0 <= j < i && ((#[trigger] t@[j]) == '/' || t@[j] == '\\')) || (t@.len() > 0
                && t@[0] == '.')),
        decreases n - i,
    {
        let c = t.get_char(i);
        if c == '/' || c == '\\' {
            path_like = true;
        }
        i = i + 1;
    }
    if path_like {
        assert(is_path_token(token@));
        return Ok(SpecKind::LocalPath { path: token.clone() });
    }
    assert(!is_path_token(token@));
    let found = find_first_at(t);
    let at: usize = match found {
        Some(a) => a,
        None => {
            proof {
                lemma_first_at(token@, n as int);
            }
            if n == 0 {
                return Err(EditError::InvalidCrateSpec);
            }
            return Ok(SpecKind::PkgId { name: token.clone(), version_req: None });
        },
    };
    proof {
        lemma_first_at(token@, at as int);
    }
    if at == 0 || at == n - 1 {
        return Err(EditError::InvalidCrateSpec);
    }
    let name = t.substring_char(0, at).to_owned();
    let req = t.substring_char(at + 1, n).to_owned();
    proof {
        assert(name@ =~= token@.take(at as int));
        assert(req@ =~= token@.skip(at as int + 1));
    }
    Ok(SpecKind::PkgId { name, version_req: Some(req) })
}

/// How many tokens of `ts` name a crate rather than append features.
pub open spec fn non_feature_count(ts: Seq<Seq<char>>) -> int
    decreases ts.len(),
{
    if ts.len() == 0 {
        0
    } else {
        non_feature_count(ts.drop_last()) + (if is_feature_token(ts.last()) {
            0int
        } else {
            1int
        })
    }
}

proof fn lemma_non_feature_count_bounds(ts: Seq<Seq<char>>)
    ensures
        0 <= non_feature_count(ts) <= ts.len(),
    decreases ts.len(),
{
    if ts.len() > 0 {
        lemma_non_feature_count_bounds(ts.drop_last());
    }
}

proof fn lemma_all_feature_of_zero_count(ts: Seq<Seq<char>>, i: int)
    requires
        0 <= i <= ts.len(),
        non_feature_count(ts.take(i)) == 0,
    ensures
        forall|j: int| 0 <= j < i ==> is_feature_token(#[trigger] ts[j]),
    decreases i,
{
    if i > 0 {
        assert(ts.take(i).drop_last() =~= ts.take(i - 1));
        assert(ts.take(i).last() == ts[i - 1]);
        lemma_non_feature_count_bounds(ts.take(i - 1));
        lemma_all_feature_of_zero_count(ts, i - 1);
    }
}

/// More than one crate token stands beside a modifier that only makes
/// sense for a single crate.
pub open spec fn ambiguous_batch(a: AddArgs) -> bool {
    non_feature_count(a.crates.deep_view()) > 1 && (a.git is Some || a.rename is Some
        || a.features is Some)
}

/// Some crate token cannot be read.
pub open spec fn some_invalid_token(ts: Seq<Seq<char>>) -> bool {
    exists|i: int| 0 <= i < ts.len() && invalid_spec_token(#[trigger] ts[i])
}

/// A `+feature` token stands before any crate token.
pub open spec fn dangling_feature(ts: Seq<Seq<char>>) -> bool {
    ts.len() > 0 && is_feature_token(ts[0])
}

impl AddArgs {
    /// Parse the raw crate tokens into dependency specs.
    ///
    /// Fails with [`EditError::AmbiguousBatchArguments`] before looking
    /// at any token when several crates are named together with a git
    /// source, a rename, or an out-of-band feature list; with
    /// [`EditError::DanglingFeatureToken`] when a `+feature` token has
    /// no spec to attach to; and with [`EditError::InvalidCrateSpec`]
    /// when a token has an empty name or version requirement. The
    /// warnings report each `+feature` token used without its gate. No
    /// lookup of any kind happens here.
    #[verifier::rlimit(60)]
    pub fn parse_dependencies(&self) -> (r: Result<(Vec<DependencySpec>, Vec<Warning>), EditError>)
        ensures
            r is Err <==> ambiguous_batch(*self) || dangling_feature(self.crates.deep_view())
                || some_invalid_token(self.crates.deep_view()),
            (r == Err::<(Vec<DependencySpec>, Vec<Warning>), EditError>(
                EditError::AmbiguousBatchArguments,
            )) <==> ambiguous_batch(*self),
            !ambiguous_batch(*self) ==> ((r == Err::<(Vec<DependencySpec>, Vec<Warning>), EditError>(
                EditError::DanglingFeatureToken,
            )) <==> dangling_feature(self.crates.deep_view())),
            r matches Ok(p) ==> p.0@.len() == non_feature_count(self.crates.deep_view()),
            r matches Ok(p) ==> forall|k: int|
                0 <= k < p.0@.len() ==> spec_consistent(
                    self.crates.deep_view(),
                    (#[trigger] p.0@[k])@,
                    k,
                ),
            r matches Ok(p) ==> forall|k: int|
                0 <= k < p.1@.len() ==> (#[trigger] p.1@[k]) == Warning::UnstableInlineAdd,
            r matches Ok(p) ==> (self.unstable_features@.contains(UnstableOptions::InlineAdd)
                ==> p.1@.len() == 0),
    {
        let ghost ts = self.crates.deep_view();
        let nf = self.count_non_feature();
        if nf > 1 && (match &self.git {
            Some(_) => true,
            None => matches!(&self.rename, Some(_)) || matches!(&self.features, Some(_)),
        }) {
            assert(ambiguous_batch(*self));
            return Err(EditError::AmbiguousBatchArguments);
        }
        assert(!ambiguous_batch(*self));
        let mut deps: Vec<DependencySpec> = Vec::new();
        let mut warnings: Vec<Warning> = Vec::new();
        let ghost pos = Seq::<int>::empty();
        let mut i: usize = 0;
        while i < self.crates.len()
            invariant
                i <= self.crates.len(),
                ts == self.crates.deep_view(),
                ts.len() == self.crates.len(),
                !ambiguous_batch(*self),
                dangling_feature(ts) ==> i == 0,
                deps@.len() == non_feature_count(ts.take(i as int)),
                pos.len() == deps@.len(),
                forall|j: int| 0 <= j < i ==> !invalid_spec_token(#[trigger] ts[j]),
                forall|k: int|
                    0 <= k < pos.len() ==> 0 <= #[trigger] pos[k] < i && !is_feature_token(
                        ts[pos[k]],
                    ) && non_feature_count(ts.take(pos[k])) == k && (#[trigger] deps@[k])@.kind
                        == spec_kind_of(ts[pos[k]]),
                forall|k: int| 0 <= k < pos.len() - 1 ==> #[trigger] pos[k] < pos[k + 1],
                forall|k: int|
                    0 <= k < pos.len() - 1 ==> (#[trigger] deps@[k])@.inline_features
                        == inline_feats_run(ts, pos[k] + 1, #[trigger] pos[k + 1]),
                forall|k: int, j: int|
                    #![trigger pos[k], ts[j]]
                    0 <= k < pos.len() - 1 && pos[k] < j < pos[k + 1] ==> is_feature_token(ts[j]),
                pos.len() > 0 ==> deps@.last()@.inline_features == inline_feats_run(
                    ts,
                    pos.last() + 1,
                    i as int,
                ),
                forall|j: int|
                    pos.len() > 0 && pos.last() < j < i ==> is_feature_token(#[trigger] ts[j]),
                forall|k: int|
                    0 <= k < warnings@.len() ==> (#[trigger] warnings@[k])
                        == Warning::UnstableInlineAdd,
                self.unstable_features@.contains(UnstableOptions::InlineAdd) ==> warnings@.len()
                    == 0,
            decreases self.crates.len() - i,
        {
            let token = &self.crates[i];
            assert(token@ == ts[i as int]);
            let is_feat = {
                let t = token.as_str();
                t.unicode_len() > 0 && t.get_char(0) == '+'
            };
            if is_feat {
                assert(is_feature_token(ts[i as int]));
                if deps.len() == 0 {
                    assert(non_feature_count(ts.take(i as int)) == 0);
                    assert(dangling_feature(ts)) by {
                        if i > 0 {
                            lemma_all_feature_of_zero_count(ts, i as int);
                        }
                    }
                    return Err(EditError::DanglingFeatureToken);
                }
                if !self.has_unstable(UnstableOptions::InlineAdd) {
                    warnings.push(Warning::UnstableInlineAdd);
                }
                let t = token.as_str();
                let n = t.unicode_len();
                let text = t.substring_char(1, n);
                let mut feats = parse_feature(text);
                let last = deps.len() - 1;
                let ghost deps0 = deps@;
                let mut last_spec = deps.remove(last);
                last_spec.inline_features.append(&mut feats);
                deps.push(last_spec);
                proof {
                    assert(text@ =~= ts[i as int].skip(1));
                    assert(deps@.len() == deps0.len());
                    assert(forall|k: int| 0 <= k < deps0.len() - 1 ==> #[trigger] deps@[k]
                        == deps0[k]);
                    assert(deps@.last()@.inline_features =~= deps0.last()@.inline_features
                        + split_feats(ts[i as int].skip(1)));
                    lemma_run_snoc(ts, pos.last() + 1, i as int);
                    assert(deps@.last()@.inline_features == inline_feats_run(
                        ts,
                        pos.last() + 1,
                        i as int + 1,
                    ));
                    assert(ts.take(i as int + 1).drop_last() =~= ts.take(i as int));
                    assert(ts.take(i as int + 1).last() == ts[i as int]);
                }
            } else {
                match parse_one_token(token) {
                    Ok(kind) => {
                        let ghost deps0 = deps@;
                        let ghost pos0 = pos;
                        deps.push(DependencySpec { kind, inline_features: Vec::new() });
                        proof {
                            pos = pos.push(i as int);
                            assert(deps@.last()@.inline_features =~= Seq::<Seq<char>>::empty());
                            assert(inline_feats_run(ts, i as int + 1, i as int + 1) =~= Seq::<
                                Seq<char>,
                            >::empty());
                            assert(ts.take(i as int + 1).drop_last() =~= ts.take(i as int));
                            assert(ts.take(i as int + 1).last() == ts[i as int]);
                            assert(forall|k: int|
                                0 <= k < pos0.len() ==> #[trigger] pos[k] == pos0[k]);
                            assert(forall|k: int|
                                0 <= k < deps0.len() ==> #[trigger] deps@[k] == deps0[k]);
                        }
                    },
                    Err(e) => {
                        assert(invalid_spec_token(ts[i as int]));
                        assert(some_invalid_token(ts));
                        return Err(e);
                    },
                }
            }
            proof {
                assert(ts.take(i as int + 1).drop_last() =~= ts.take(i as int));
                assert(ts.take(i as int + 1).last() == ts[i as int]);
            }
            i = i + 1;
        }
        proof {
            assert(ts.take(ts.len() as int) =~= ts);
            assert(!dangling_feature(ts) || ts.len() == 0);
            assert(!some_invalid_token(ts));
            assert forall|k: int| 0 <= k < deps@.len() implies spec_consistent(
                ts,
                (#[trigger] deps@[k])@,
                k,
            ) by {
                let p = pos[k];
                if k < pos.len() - 1 {
                    assert((#[trigger] deps@[k + 1])@.kind == spec_kind_of(
                        ts[#[trigger] pos[k + 1]],
                    ));
                    assert(0 <= pos[k + 1] < ts.len() && !is_feature_token(ts[pos[k + 1]]));
                    lemma_run_to_after(ts, p + 1, pos[k + 1]);
                } else {
                    lemma_run_to_after(ts, p + 1, ts.len() as int);
                }
                assert(0 <= p < ts.len() && !is_feature_token(ts[p]) && non_feature_count(
                    ts.take(p),
                ) == k && deps@[k]@.kind == spec_kind_of(ts[p]) && deps@[k]@.inline_features
                    == inline_feats_after(ts, p + 1));
            }
        }
        Ok((deps, warnings))
    }

    /// How many of the raw tokens name a crate.
    fn count_non_feature(&self) -> (n: usize)
        ensures
            n as int == non_feature_count(self.crates.deep_view()),
    {
        let ghost ts = self.crates.deep_view();
        let mut n: usize = 0;
        let mut i: usize = 0;
        while i < self.crates.len()
            invariant
                i <= self.crates.len(),
                ts == self.crates.deep_view(),
                ts.len() == self.crates.len(),
                n <= i,
                n as int == non_feature_count(ts.take(i as int)),
            decreases self.crates.len() - i,
        {
            let t = self.crates[i].as_str();
            assert(t@ == ts[i as int]);
            let is_feat = t.unicode_len() > 0 && t.get_char(0) == '+';
            proof {
                assert(ts.take(i as int + 1).drop_last() =~= ts.take(i as int));
                assert(ts.take(i as int + 1).last() == ts[i as int]);
            }
            if !is_feat {
                n = n + 1;
            }
            i = i + 1;
        }
        proof {
            assert(ts.take(ts.len() as int) =~= ts);
        }
        n
    }
}

/// Spec `k` (counting crate tokens in order) of the token list `ts`
/// carries the kind of its token and the concatenated features of the
/// `+` tokens that follow it.
pub open spec fn spec_consistent(ts: Seq<Seq<char>>, d: DependencySpecView, k: int) -> bool {
    exists|i: int|
        {
            &&& 0 <= i < ts.len()
            &&& !is_feature_token(#[trigger] ts[i])
            &&& non_feature_count(ts.take(i)) == k
            &&& d.kind == spec_kind_of(ts[i])
            &&& d.inline_features == inline_feats_after(ts, i + 1)
        }
}

/// The features of the run of `+` tokens starting at `i`.
pub open spec fn inline_feats_after(ts: Seq<Seq<char>>, i: int) -> Seq<Seq<char>>
    decreases ts.len() - i,
{
    if i < 0 || i >= ts.len() || !is_feature_token(ts[i]) {
        seq![]
    } else {
        split_feats(ts[i].skip(1)) + inline_feats_after(ts, i + 1)
    }
}

/// The concatenated features of the tokens in `[p, q)`, each read as a
/// feature token.
pub open spec fn inline_feats_run(ts: Seq<Seq<char>>, p: int, q: int) -> Seq<Seq<char>>
    decreases q - p,
{
    if p < 0 || p >= q || q > ts.len() {
        seq![]
    } else {
        split_feats(ts[p].skip(1)) + inline_feats_run(ts, p + 1, q)
    }
}

proof fn lemma_run_snoc(ts: Seq<Seq<char>>, p: int, q: int)
    requires
        0 <= p <= q < ts.len(),
    ensures
        inline_feats_run(ts, p, q + 1) == inline_feats_run(ts, p, q) + split_feats(
            ts[q].skip(1),
        ),
    decreases q - p,
{
    if p < q {
        lemma_run_snoc(ts, p + 1, q);
        assert((split_feats(ts[p].skip(1)) + inline_feats_run(ts, p + 1, q)) + split_feats(
            ts[q].skip(1),
        ) =~= split_feats(ts[p].skip(1)) + (inline_feats_run(ts, p + 1, q) + split_feats(
            ts[q].skip(1),
        )));
    } else {
        assert(inline_feats_run(ts, p, p) =~= Seq::<Seq<char>>::empty());
        assert(inline_feats_run(ts, p + 1, p + 1) =~= Seq::<Seq<char>>::empty());
        assert(inline_feats_run(ts, p, p + 1) =~= split_feats(ts[p].skip(1)));
        assert(inline_feats_run(ts, p, p) + split_feats(ts[p].skip(1)) =~= split_feats(
            ts[p].skip(1),
        ));
    }
}

proof fn lemma_run_to_after(ts: Seq<Seq<char>>, p: int, q: int)
    requires
        0 <= p <= q <= ts.len(),
        forall|j: int| p <= j < q ==> is_feature_token(#[trigger] ts[j]),
        q == ts.len() || !is_feature_token(ts[q]),
    ensures
        inline_feats_after(ts, p) == inline_feats_run(ts, p, q),
    decreases q - p,
{
    if p < q {
        lemma_run_to_after(ts, p + 1, q);
    }
}

} // verus!
