//! The content-negotiation engine: a pure function from a path's variant
//! list and a client's preferences to the variant to serve.
//!
//! The `Accept` entries are ranked by descending quality weight with a
//! stable tie-break: entries of equal weight keep their original order.
//! Each entry is tried in turn against the variant list; an entry selects
//! the last listed variant whose MIME type equals it exactly (no wildcard
//! or parameter matching) and whose content-coding the client accepts.
//! The identity coding (an absent `encoding` field) is acceptable when the
//! client lists `identity` or lists no codings at all; every other coding
//! must be listed.

use vstd::prelude::*;

use crate::entity::{Entity, EntityView, Payload, PayloadView};

verus! {

/// One client preference from the request's `Accept` list: a MIME type and
/// a quality weight in thousandths, so `1000` stands for `q=1.0`.
pub struct AcceptedType {
    pub mime_type: String,
    pub q_value: u16,
}

/// The mathematical value of an [`AcceptedType`].
pub struct AcceptedTypeView {
    pub mime_type: Seq<char>,
    pub q_value: u16,
}

impl View for AcceptedType {
    type V = AcceptedTypeView;

    open spec fn view(&self) -> AcceptedTypeView {
        AcceptedTypeView { mime_type: self.mime_type@, q_value: self.q_value }
    }
}

impl DeepView for AcceptedType {
    type V = AcceptedTypeView;

    open spec fn deep_view(&self) -> AcceptedTypeView {
        self.view()
    }
}

impl AcceptedType {
    /// A copy of this preference, equal in value.
    pub fn duplicate(&self) -> (r: AcceptedType)
        ensures
            r@ == self@,
    {
        AcceptedType { mime_type: self.mime_type.clone(), q_value: self.q_value }
    }
}

// ---------------------------------------------------------------------------
// Ranking the Accept entries: a stable sort by descending quality weight.
// ---------------------------------------------------------------------------
/// Insertion of one entry into a ranked list: it goes after every entry of
/// equal or higher weight and before the first strictly lighter one.
pub open spec fn insort(x: AcceptedTypeView, s: Seq<AcceptedTypeView>) -> Seq<AcceptedTypeView>
    decreases s.len(),
{
    if s.len() == 0 {
        seq![x]
    } else if s[0].q_value >= x.q_value {
        seq![s[0]] + insort(x, s.drop_first())
    } else {
        seq![x] + s
    }
}

/// The ranked Accept list: entries sorted by descending weight, entries of
/// equal weight keeping their original relative order.
pub open spec fn sort_accepts_spec(s: Seq<AcceptedTypeView>) -> Seq<AcceptedTypeView>
    decreases s.len(),
{
    if s.len() == 0 {
        Seq::empty()
    } else {
        insort(s.last(), sort_accepts_spec(s.drop_last()))
    }
}

/// Weights never increase along the list.
pub open spec fn sorted_desc(s: Seq<AcceptedTypeView>) -> bool {
    forall|i: int, j: int| 0 <= i < j < s.len() ==> s[i].q_value >= s[j].q_value
}

/// The subsequence of entries carrying exactly the weight `q`, in their
/// order of appearance.
pub open spec fn entries_with_q(s: Seq<AcceptedTypeView>, q: u16) -> Seq<AcceptedTypeView>
    decreases s.len(),
{
    if s.len() == 0 {
        Seq::empty()
    } else if s[0].q_value == q {
        seq![s[0]] + entries_with_q(s.drop_first(), q)
    } else {
        entries_with_q(s.drop_first(), q)
    }
}

proof fn lemma_insort_len(x: AcceptedTypeView, s: Seq<AcceptedTypeView>)
    ensures
        insort(x, s).len() == s.len() + 1,
    decreases s.len(),
{
    if s.len() > 0 && s[0].q_value >= x.q_value {
        lemma_insort_len(x, s.drop_first());
    }
}

proof fn lemma_insort_sorted(x: AcceptedTypeView, s: Seq<AcceptedTypeView>)
    requires
        sorted_desc(s),
    ensures
        sorted_desc(insort(x, s)),
        insort(x, s).len() == s.len() + 1,
        insort(x, s)[0] == x || (s.len() > 0 && insort(x, s)[0] == s[0]),
    decreases s.len(),
{
    lemma_insort_len(x, s);
    if s.len() == 0 {
    } else if s[0].q_value >= x.q_value {
        assert(sorted_desc(s.drop_first()));
        lemma_insort_sorted(x, s.drop_first());
        let r = seq![s[0]] + insort(x, s.drop_first());
        assert forall|i: int, j: int| 0 <= i < j < r.len() implies r[i].q_value >= r[j].q_value by {
            if i == 0 {
                let h = insort(x, s.drop_first())[0];
                assert(r[j] == insort(x, s.drop_first())[j - 1]);
                if j - 1 > 0 {
                    assert(h.q_value >= insort(x, s.drop_first())[j - 1].q_value);
                }
                assert(s[0].q_value >= h.q_value);
            } else {
                assert(r[i] == insort(x, s.drop_first())[i - 1]);
                assert(r[j] == insort(x, s.drop_first())[j - 1]);
            }
        }
    } else {
        let r = seq![x] + s;
        assert forall|i: int, j: int| 0 <= i < j < r.len() implies r[i].q_value >= r[j].q_value by {
            if i == 0 {
                if j == 1 {
                    assert(r[j] == s[0]);
                } else {
                    assert(r[j] == s[j - 1]);
                    assert(s[0].q_value >= s[j - 1].q_value);
                }
            } else {
                assert(r[i] == s[i - 1]);
                assert(r[j] == s[j - 1]);
            }
        }
    }
}

/// The ranked list is sorted by descending weight: a heavier preference is
/// always tried before a lighter one.
pub proof fn lemma_sort_sorted(s: Seq<AcceptedTypeView>)
    ensures
        sorted_desc(sort_accepts_spec(s)),
        sort_accepts_spec(s).len() == s.len(),
    decreases s.len(),
{
    if s.len() > 0 {
        lemma_sort_sorted(s.drop_last());
        lemma_insort_sorted(s.last(), sort_accepts_spec(s.drop_last()));
    }
}

proof fn lemma_insort_multiset(x: AcceptedTypeView, s: Seq<AcceptedTypeView>)
    ensures
        insort(x, s).to_multiset() == s.to_multiset().insert(x),
    decreases s.len(),
{
    broadcast use vstd::multiset::group_multiset_axioms;

    if s.len() == 0 {
        assert(insort(x, s) =~= s.insert(0, x));
        vstd::seq_lib::to_multiset_insert(s, 0, x);
    } else if s[0].q_value >= x.q_value {
        lemma_insort_multiset(x, s.drop_first());
        assert(seq![s[0]] + insort(x, s.drop_first()) =~= insort(x, s.drop_first()).insert(
            0,
            s[0],
        ));
        vstd::seq_lib::to_multiset_insert(insort(x, s.drop_first()), 0, s[0]);
        assert(s =~= s.drop_first().insert(0, s[0]));
        vstd::seq_lib::to_multiset_insert(s.drop_first(), 0, s[0]);
        assert(s.drop_first().to_multiset().insert(x).insert(s[0])
            =~= s.drop_first().to_multiset().insert(s[0]).insert(x));
    } else {
        assert(insort(x, s) =~= s.insert(0, x));
        vstd::seq_lib::to_multiset_insert(s, 0, x);
    }
}

/// Ranking loses no entry and invents none: the ranked Accept list is a
/// permutation of the given one.
pub proof fn lemma_sort_permutation(s: Seq<AcceptedTypeView>)
    ensures
        sort_accepts_spec(s).to_multiset() == s.to_multiset(),
    decreases s.len(),
{
    broadcast use vstd::multiset::group_multiset_axioms;

    if s.len() > 0 {
        lemma_sort_permutation(s.drop_last());
        lemma_insort_multiset(s.last(), sort_accepts_spec(s.drop_last()));
        assert(s =~= s.drop_last().insert(s.len() - 1, s.last()));
        vstd::seq_lib::to_multiset_insert(s.drop_last(), s.len() - 1, s.last());
    } else {
        assert(sort_accepts_spec(s) =~= s);
    }
}

proof fn lemma_low_head_no_q(s: Seq<AcceptedTypeView>, q: u16)
    requires
        sorted_desc(s),
        s.len() == 0 || s[0].q_value < q,
    ensures
        entries_with_q(s, q) == Seq::<AcceptedTypeView>::empty(),
    decreases s.len(),
{
    if s.len() > 0 {
        assert(sorted_desc(s.drop_first()));
        assert(s.drop_first().len() == 0 || s.drop_first()[0].q_value <= s[0].q_value);
        lemma_low_head_no_q(s.drop_first(), q);
    }
}

proof fn lemma_insort_entries(x: AcceptedTypeView, s: Seq<AcceptedTypeView>, q: u16)
    requires
        sorted_desc(s),
    ensures
        entries_with_q(insort(x, s), q) == if x.q_value == q {
            entries_with_q(s, q) + seq![x]
        } else {
            entries_with_q(s, q)
        },
    decreases s.len(),
{
    if s.len() == 0 {
        assert(seq![x].drop_first() =~= Seq::<AcceptedTypeView>::empty());
        assert(entries_with_q(Seq::<AcceptedTypeView>::empty(), q) =~= Seq::<
            AcceptedTypeView,
        >::empty());
        if x.q_value == q {
            assert(entries_with_q(seq![x], q) =~= seq![seq![x][0]] + entries_with_q(
                seq![x].drop_first(),
                q,
            ));
            assert(entries_with_q(seq![x], q) =~= Seq::<AcceptedTypeView>::empty() + seq![x]);
        }
    } else if s[0].q_value >= x.q_value {
        let r = seq![s[0]] + insort(x, s.drop_first());
        assert(r[0] == s[0]);
        assert(r.drop_first() =~= insort(x, s.drop_first()));
        assert(sorted_desc(s.drop_first()));
        lemma_insort_entries(x, s.drop_first(), q);
        if s[0].q_value == q {
            if x.q_value == q {
                assert(seq![s[0]] + (entries_with_q(s.drop_first(), q) + seq![x]) =~= (seq![s[0]]
                    + entries_with_q(s.drop_first(), q)) + seq![x]);
            }
        }
    } else {
        let r = seq![x] + s;
        assert(r[0] == x);
        assert(r.drop_first() =~= s);
        if x.q_value == q {
            lemma_low_head_no_q(s, q);
            assert(entries_with_q(r, q) =~= seq![x] + entries_with_q(s, q));
            assert(seq![x] + Seq::<AcceptedTypeView>::empty() =~= Seq::<
                AcceptedTypeView,
            >::empty() + seq![x]);
        }
    }
}

proof fn lemma_snoc_entries(s: Seq<AcceptedTypeView>, x: AcceptedTypeView, q: u16)
    ensures
        entries_with_q(s.push(x), q) == if x.q_value == q {
            entries_with_q(s, q) + seq![x]
        } else {
            entries_with_q(s, q)
        },
    decreases s.len(),
{
    if s.len() == 0 {
        assert(s.push(x)[0] == x);
        assert(s.push(x).drop_first() =~= Seq::<AcceptedTypeView>::empty());
        assert(entries_with_q(Seq::<AcceptedTypeView>::empty(), q) =~= Seq::<
            AcceptedTypeView,
        >::empty());
        if x.q_value == q {
            assert(entries_with_q(s.push(x), q) =~= seq![s.push(x)[0]] + entries_with_q(
                s.push(x).drop_first(),
                q,
            ));
            assert(entries_with_q(s.push(x), q) =~= seq![x]);
            assert(entries_with_q(s, q) + seq![x] =~= seq![x]);
        }
    } else {
        assert(s.push(x)[0] == s[0]);
        assert(s.push(x).drop_first() =~= s.drop_first().push(x));
        lemma_snoc_entries(s.drop_first(), x, q);
        if s[0].q_value == q && x.q_value == q {
            assert(seq![s[0]] + (entries_with_q(s.drop_first(), q) + seq![x]) =~= (seq![s[0]]
                + entries_with_q(s.drop_first(), q)) + seq![x]);
        }
    }
}

/// The stable tie-break: ranking the Accept list never reorders entries of
/// equal weight — for every weight, the entries carrying it appear in the
/// ranked list in exactly their original order.
pub proof fn lemma_sort_stable(s: Seq<AcceptedTypeView>, q: u16)
    ensures
        entries_with_q(sort_accepts_spec(s), q) == entries_with_q(s, q),
    decreases s.len(),
{
    if s.len() > 0 {
        lemma_sort_stable(s.drop_last(), q);
        lemma_sort_sorted(s.drop_last());
        lemma_insort_entries(s.last(), sort_accepts_spec(s.drop_last()), q);
        assert(s =~= s.drop_last().push(s.last()));
        lemma_snoc_entries(s.drop_last(), s.last(), q);
    }
}

// ---------------------------------------------------------------------------
// Selecting the variant.
// ---------------------------------------------------------------------------
/// Whether the given coding token appears in the accepted set.
pub open spec fn coding_listed(encs: Seq<Seq<char>>, x: Seq<char>) -> bool {
    exists|i: int| 0 <= i < encs.len() && encs[i] == x
}

/// The coding a variant is served in: its `encoding` field, or identity
/// when the field is absent.
pub open spec fn effective_coding(enc: Option<Seq<char>>) -> Seq<char> {
    match enc {
        Option::Some(s) => s,
        Option::None => "identity"@,
    }
}

/// Whether a client accepting the codings `encs` accepts a variant stored
/// with coding `enc`: exact membership, except that the identity coding is
/// also acceptable when the client lists no codings at all.
pub open spec fn encoding_acceptable(enc: Option<Seq<char>>, encs: Seq<Seq<char>>) -> bool {
    let eff = effective_coding(enc);
    if eff == "identity"@ {
        encs.len() == 0 || coding_listed(encs, eff)
    } else {
        coding_listed(encs, eff)
    }
}

/// The variant an Accept entry selects from a list: the last entry whose
/// MIME type matches exactly and whose coding is acceptable, so that a
/// later duplicate wins over an earlier one.
pub open spec fn last_match(
    vs: Seq<EntityView>,
    mime: Seq<char>,
    encs: Seq<Seq<char>>,
) -> Option<EntityView>
    decreases vs.len(),
{
    if vs.len() == 0 {
        Option::None
    } else if vs.last().mime_type == mime && encoding_acceptable(vs.last().encoding, encs) {
        Option::Some(vs.last())
    } else {
        last_match(vs.drop_last(), mime, encs)
    }
}

/// The walk over an already ranked Accept list: the first entry that
/// selects a variant decides.
pub open spec fn negotiate_sorted(
    vs: Seq<EntityView>,
    ats: Seq<AcceptedTypeView>,
    encs: Seq<Seq<char>>,
) -> Option<EntityView>
    decreases ats.len(),
{
    if ats.len() == 0 {
        Option::None
    } else {
        match last_match(vs, ats[0].mime_type, encs) {
            Option::Some(e) => Option::Some(e),
            Option::None => negotiate_sorted(vs, ats.drop_first(), encs),
        }
    }
}

/// The negotiation result for a variant list, an Accept list and a set of
/// accepted codings: rank the Accept list, then walk it.
pub open spec fn negotiate(
    vs: Seq<EntityView>,
    ats: Seq<AcceptedTypeView>,
    encs: Seq<Seq<char>>,
) -> Option<EntityView> {
    negotiate_sorted(vs, sort_accepts_spec(ats), encs)
}

// ---------------------------------------------------------------------------
// The executable engine.
// ---------------------------------------------------------------------------
fn coding_in(encs: &Vec<String>, x: &String) -> (r: bool)
    ensures
        r == coding_listed(encs.deep_view(), x@),
{
    let mut i: usize = 0;
    while i < encs.len()
        invariant
            i <= encs@.len(),
            forall|k: int| 0 <= k < i ==> encs.deep_view()[k] != x@,
        decreases encs@.len() - i,
    {
        if encs[i] == *x {
            proof {
                assert(encs.deep_view()[i as int] == x@);
            }
            return true;
        }
        i = i + 1;
    }
    false
}

fn encoding_ok(enc: &Option<String>, encs: &Vec<String>) -> (r: bool)
    ensures
        r == encoding_acceptable(enc.deep_view(), encs.deep_view()),
{
    let identity: String = String::from_str("identity");
    match enc {
        Option::Some(s) => {
            if *s == identity {
                if encs.len() == 0 {
                    true
                } else {
                    coding_in(encs, s)
                }
            } else {
                coding_in(encs, s)
            }
        },
        Option::None => {
            if encs.len() == 0 {
                true
            } else {
                coding_in(encs, &identity)
            }
        },
    }
}

/// The variant the MIME type `mime` selects, as an index into `entities`.
fn find_variant(entities: &Vec<Entity>, mime: &String, encs: &Vec<String>) -> (r: Option<usize>)
    ensures
        match r {
            Option::Some(i) => i < entities@.len() && last_match(
                entities.deep_view(),
                mime@,
                encs.deep_view(),
            ) == Option::Some(entities.deep_view()[i as int]),
            Option::None => last_match(entities.deep_view(), mime@, encs.deep_view()) is None,
        },
{
    let ghost vs = entities.deep_view();
    proof {
        assert(vs.take(vs.len() as int) =~= vs);
    }
    let mut j: usize = entities.len();
    while j > 0
        invariant
            j <= entities@.len(),
            vs == entities.deep_view(),
            vs.len() == entities@.len(),
            last_match(vs, mime@, encs.deep_view()) == last_match(
                vs.take(j as int),
                mime@,
                encs.deep_view(),
            ),
        decreases j,
    {
        j = j - 1;
        let e = &entities[j];
        proof {
            assert(vs[j as int] == entities@[j as int].deep_view());
            assert(vs.take(j + 1).last() == vs[j as int]);
            assert(vs.take(j + 1).drop_last() =~= vs.take(j as int));
        }
        if e.mime_type == *mime {
            if encoding_ok(&e.encoding, encs) {
                return Option::Some(j);
            }
        }
    }
    proof {
        assert(vs.take(0) =~= Seq::<EntityView>::empty());
    }
    Option::None
}

/// Rank the Accept entries: a stable insertion sort by descending weight.
fn sort_accepts(accepts: &Vec<AcceptedType>) -> (r: Vec<AcceptedType>)
    ensures
        r.deep_view() == sort_accepts_spec(accepts.deep_view()),
{
    let ghost ats = accepts.deep_view();
    let mut out: Vec<AcceptedType> = Vec::new();
    let mut i: usize = 0;
    while i < accepts.len()
        invariant
            i <= accepts@.len(),
            ats == accepts.deep_view(),
            ats.len() == accepts@.len(),
            out.deep_view() == sort_accepts_spec(ats.take(i as int)),
        decreases accepts@.len() - i,
    {
        let a = accepts[i].duplicate();
        let ghost pre = out.deep_view();
        let mut k: usize = 0;
        while k < out.len() && out[k].q_value >= a.q_value
            invariant
                k <= out@.len(),
                pre == out.deep_view(),
                pre.len() == out@.len(),
                forall|m: int| 0 <= m < k ==> pre[m].q_value >= a@.q_value,
            decreases out@.len() - k,
        {
            k = k + 1;
        }
        out.insert(k, a);
        proof {
            lemma_insort_at(a@, pre, k as int);
            assert(out.deep_view() =~= pre.take(k as int) + seq![a@] + pre.skip(k as int));
            assert(ats.take(i + 1) =~= ats.take(i as int).push(ats[i as int]));
            assert(ats.take(i + 1).drop_last() =~= ats.take(i as int));
            assert(a@ == ats[i as int]);
        }
        i = i + 1;
    }
    proof {
        assert(ats.take(ats.len() as int) =~= ats);
    }
    out
}

/// Inserting before the first strictly lighter entry is what [`insort`]
/// does.
proof fn lemma_insort_at(x: AcceptedTypeView, s: Seq<AcceptedTypeView>, k: int)
    requires
        0 <= k <= s.len(),
        forall|m: int| 0 <= m < k ==> s[m].q_value >= x.q_value,
        k == s.len() || s[k].q_value < x.q_value,
    ensures
        insort(x, s) == s.take(k) + seq![x] + s.skip(k),
    decreases k,
{
    if k == 0 {
        if s.len() == 0 {
            assert(insort(x, s) =~= s.take(0) + seq![x] + s.skip(0));
        } else {
            assert(insort(x, s) =~= seq![x] + s);
            assert(seq![x] + s =~= s.take(0) + seq![x] + s.skip(0));
        }
    } else {
        lemma_insort_at(x, s.drop_first(), k - 1);
        assert(insort(x, s) == seq![s[0]] + insort(x, s.drop_first()));
        assert(s.drop_first().take(k - 1) =~= s.take(k).drop_first());
        assert(seq![s[0]] + (s.drop_first().take(k - 1) + seq![x] + s.drop_first().skip(k - 1))
            =~= s.take(k) + seq![x] + s.skip(k));
    }
}

/// Select the variant to serve for the request's preferences, or report
/// that no representation is acceptable.
pub fn match_content(
    entities: &Vec<Entity>,
    accepted_types: &Vec<AcceptedType>,
    accepted_encodings: &Vec<String>,
) -> (r: Option<Entity>)
    ensures
        match r {
            Option::Some(e) => negotiate(
                entities.deep_view(),
                accepted_types.deep_view(),
                accepted_encodings.deep_view(),
            ) == Option::Some(e.deep_view()),
            Option::None => negotiate(
                entities.deep_view(),
                accepted_types.deep_view(),
                accepted_encodings.deep_view(),
            ) is None,
        },
{
    let ghost vs = entities.deep_view();
    let ghost encs = accepted_encodings.deep_view();
    let sorted = sort_accepts(accepted_types);
    let ghost sats = sorted.deep_view();
    proof {
        assert(sats.skip(0) =~= sats);
    }
    let mut i: usize = 0;
    while i < sorted.len()
        invariant
            i <= sorted@.len(),
            vs == entities.deep_view(),
            encs == accepted_encodings.deep_view(),
            sats == sorted.deep_view(),
            sats == sort_accepts_spec(accepted_types.deep_view()),
            sats.len() == sorted@.len(),
            negotiate_sorted(vs, sats, encs) == negotiate_sorted(vs, sats.skip(i as int), encs),
        decreases sorted@.len() - i,
    {
        proof {
            assert(sats.skip(i as int)[0] == sats[i as int]);
            assert(sats.skip(i as int).drop_first() =~= sats.skip(i + 1));
        }
        match find_variant(entities, &sorted[i].mime_type, accepted_encodings) {
            Option::Some(j) => {
                proof {
                    assert(sorted[i as int].deep_view() == sats[i as int]);
                    assert(entities@[j as int].deep_view() == vs[j as int]);
                    assert(negotiate_sorted(vs, sats.skip(i as int), encs) == Option::Some(
                        vs[j as int],
                    ));
                }
                return Option::Some(entities[j].duplicate());
            },
            Option::None => {
                proof {
                    assert(sorted[i as int].deep_view() == sats[i as int]);
                }
            },
        }
        i = i + 1;
    }
    proof {
        assert(sats.skip(sats.len() as int) =~= Seq::<AcceptedTypeView>::empty());
    }
    Option::None
}

// ---------------------------------------------------------------------------
// Mapping the selection to a response shape.
// ---------------------------------------------------------------------------
/// The response a negotiation outcome maps to: a success with body and MIME
/// type, a redirect, or a not-found.
pub enum Response {
    Content { mime_type: String, body: Vec<u8> },
    Redirect { target: String },
    NotFound,
}

/// The mathematical value of a [`Response`].
pub enum ResponseView {
    Content { mime_type: Seq<char>, body: Seq<u8> },
    Redirect { target: Seq<char> },
    NotFound,
}

impl View for Response {
    type V = ResponseView;

    open spec fn view(&self) -> ResponseView {
        match self {
            Response::Content { mime_type, body } => ResponseView::Content {
                mime_type: mime_type@,
                body: body@,
            },
            Response::Redirect { target } => ResponseView::Redirect { target: target@ },
            Response::NotFound => ResponseView::NotFound,
        }
    }
}

/// The response shape a negotiation outcome yields: a matched body-payload
/// variant is served, a matched redirect-payload variant redirects, and no
/// match is a not-found.
pub open spec fn response_for(sel: Option<EntityView>) -> ResponseView {
    match sel {
        Option::None => ResponseView::NotFound,
        Option::Some(e) => match e.payload {
            PayloadView::Body(b) => ResponseView::Content { mime_type: e.mime_type, body: b },
            PayloadView::Redirect(t) => ResponseView::Redirect { target: t },
        },
    }
}

/// Negotiate and map the outcome to the response shape.  An empty variant
/// list yields a not-found, as does a list with no acceptable variant.
pub fn negotiate_response(
    entities: &Vec<Entity>,
    accepted_types: &Vec<AcceptedType>,
    accepted_encodings: &Vec<String>,
) -> (r: Response)
    ensures
        r@ == response_for(
            negotiate(
                entities.deep_view(),
                accepted_types.deep_view(),
                accepted_encodings.deep_view(),
            ),
        ),
{
    match match_content(entities, accepted_types, accepted_encodings) {
        Option::Some(e) => match e.payload {
            Payload::Body(b) => Response::Content { mime_type: e.mime_type, body: b },
            Payload::Redirect(t) => Response::Redirect { target: t },
        },
        Option::None => Response::NotFound,
    }
}

} // verus!
