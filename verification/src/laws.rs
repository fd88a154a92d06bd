//! Laws of the taxonomy that relate several functions: what metadata
//! equality means, and exactly when the optional wire fields are omitted.

use vstd::prelude::*;

use crate::json::ser_details_list;
use crate::json::ser_error_info;
use crate::json::ser_md_entries;
use crate::json::ser_status;
use crate::json::ser_str;
use crate::model::ErrorInfo;
use crate::model::StatusView;
use crate::model::md_sorted;
use crate::model::spec_code_token;
use crate::model::md_seq_insert;
use crate::text::lex_lt;
use crate::text::lemma_lex_asymm_from;
use crate::text::lemma_lex_irrefl_from;

verus! {

/// The mapping a metadata entry sequence stands for.
pub open spec fn md_map(md: Seq<(Seq<char>, Seq<char>)>) -> Map<Seq<char>, Seq<char>>
    decreases md.len(),
{
    if md.len() == 0 {
        Map::empty()
    } else {
        md_map(md.drop_first()).insert(md[0].0, md[0].1)
    }
}

/// Some entry carries the key `k`.
spec fn md_has_key(md: Seq<(Seq<char>, Seq<char>)>, k: Seq<char>) -> bool {
    exists|i: int| 0 <= i < md.len() && md[i].0 == k
}

/// The domain of the metadata mapping is exactly the set of keys that occur.
proof fn lemma_md_map_dom(md: Seq<(Seq<char>, Seq<char>)>)
    ensures
        forall|k: Seq<char>| #[trigger] md_map(md).dom().contains(k) <==> md_has_key(md, k),
    decreases md.len(),
{
    if md.len() == 0 {
        assert forall|k: Seq<char>| #[trigger] md_map(md).dom().contains(k) implies md_has_key(
            md,
            k,
        ) by {}
        assert forall|k: Seq<char>| md_has_key(md, k) implies #[trigger] md_map(md).dom().contains(
            k,
        ) by {}
    } else {
        let t = md.drop_first();
        lemma_md_map_dom(t);
        assert forall|k: Seq<char>| #[trigger] md_map(md).dom().contains(k) implies md_has_key(
            md,
            k,
        ) by {
            if k == md[0].0 {
                assert(0 <= 0 < md.len() && md[0].0 == k);
            } else {
                assert(md_map(t).dom().contains(k));
                let i = choose|i: int| 0 <= i < t.len() && t[i].0 == k;
                assert(md[i + 1].0 == k);
            }
        }
        assert forall|k: Seq<char>| md_has_key(md, k) implies #[trigger] md_map(md).dom().contains(
            k,
        ) by {
            let i = choose|i: int| 0 <= i < md.len() && md[i].0 == k;
            assert(md_map(md) == md_map(t).insert(md[0].0, md[0].1));
            if i == 0 {
                assert(md_map(md).dom().contains(md[0].0));
            } else {
                assert(t[i - 1].0 == k);
                assert(md_has_key(t, k));
                assert(md_map(t).dom().contains(k));
                assert(md_map(md).dom().contains(k));
            }
        }
    }
}

/// In a strictly key-sorted sequence the head key occurs nowhere in the tail.
proof fn lemma_sorted_head_not_in_tail(md: Seq<(Seq<char>, Seq<char>)>)
    requires
        md.len() > 0,
        md_sorted(md),
    ensures
        !md_has_key(md.drop_first(), md[0].0),
{
    let t = md.drop_first();
    if md_has_key(t, md[0].0) {
        let i = choose|i: int| 0 <= i < t.len() && t[i].0 == md[0].0;
        assert(t[i] == md[i + 1]);
        assert(lex_lt(md[0].0, md[i + 1].0));
        lemma_lex_irrefl_from(md[0].0, 0);
    }
}

/// A strictly key-sorted entry sequence is the canonical representation of
/// its mapping: two sorted sequences standing for the same mapping are the
/// same sequence.
proof fn lemma_md_canonical(a: Seq<(Seq<char>, Seq<char>)>, b: Seq<(Seq<char>, Seq<char>)>)
    requires
        md_sorted(a),
        md_sorted(b),
        md_map(a) == md_map(b),
    ensures
        a == b,
    decreases a.len(),
{
    lemma_md_map_dom(a);
    lemma_md_map_dom(b);
    if a.len() == 0 {
        if b.len() > 0 {
            assert(md_map(b).dom().contains(b[0].0));
            assert(md_has_key(a, b[0].0));
        }
        assert(a =~= b);
    } else {
        assert(md_map(a).dom().contains(a[0].0));
        assert(md_has_key(b, a[0].0));
        assert(md_map(b).dom().contains(b[0].0));
        assert(md_has_key(a, b[0].0));
        let j = choose|j: int| 0 <= j < b.len() && b[j].0 == a[0].0;
        let i = choose|i: int| 0 <= i < a.len() && a[i].0 == b[0].0;
        if i > 0 && j > 0 {
            assert(lex_lt(b[0].0, b[j].0));
            assert(lex_lt(a[0].0, a[i].0));
            lemma_lex_asymm_from(b[0].0, a[0].0, 0);
            assert(false);
        }
        assert(a[0].0 == b[0].0);
        assert(md_map(a)[a[0].0] == a[0].1);
        assert(md_map(b)[b[0].0] == b[0].1);
        assert(a[0] == (a[0].0, a[0].1));
        assert(b[0] == (b[0].0, b[0].1));
        assert(a[0] == b[0]);
        let ta = a.drop_first();
        let tb = b.drop_first();
        lemma_sorted_head_not_in_tail(a);
        lemma_sorted_head_not_in_tail(b);
        lemma_md_map_dom(ta);
        lemma_md_map_dom(tb);
        assert(!md_map(ta).dom().contains(a[0].0));
        assert(!md_map(tb).dom().contains(b[0].0));
        assert(md_map(ta) =~= md_map(a).remove(a[0].0));
        assert(md_map(tb) =~= md_map(b).remove(b[0].0));
        assert(md_map(ta) == md_map(tb));
        assert(md_sorted(ta)) by {
            assert forall|p: int, q: int| 0 <= p < q < ta.len() implies lex_lt(
                ta[p].0,
                ta[q].0,
            ) by {
                assert(ta[p] == a[p + 1]);
                assert(ta[q] == a[q + 1]);
            }
        }
        assert(md_sorted(tb)) by {
            assert forall|p: int, q: int| 0 <= p < q < tb.len() implies lex_lt(
                tb[p].0,
                tb[q].0,
            ) by {
                assert(tb[p] == b[p + 1]);
                assert(tb[q] == b[q + 1]);
            }
        }
        lemma_md_canonical(ta, tb);
        assert forall|k: int| 0 <= k < a.len() implies a[k] == b[k] by {
            if k > 0 {
                assert(a[k] == ta[k - 1]);
                assert(b[k] == tb[k - 1]);
            }
        }
        assert(a =~= b);
    }
}

/// Equality of `ErrorInfo` values is structural: with metadata in canonical
/// form, two values are equal exactly when `reason`, `domain` and the
/// metadata mapping all agree — the mapping, not any entry order, decides.
pub proof fn lemma_error_info_eq(a: ErrorInfo, b: ErrorInfo)
    requires
        a.wf(),
        b.wf(),
    ensures
        a@ == b@ <==> (a@.reason == b@.reason && a@.domain == b@.domain && md_map(a@.metadata)
            == md_map(b@.metadata)),
{
    if a@.reason == b@.reason && a@.domain == b@.domain && md_map(a@.metadata) == md_map(
        b@.metadata,
    ) {
        lemma_md_canonical(a@.metadata, b@.metadata);
        assert(a@ =~= b@);
    }
}

/// Inserting a metadata entry means exactly inserting into the mapping the
/// entry sequence stands for.
pub proof fn lemma_md_insert_map(md: Seq<(Seq<char>, Seq<char>)>, k: Seq<char>, v: Seq<char>)
    ensures
        md_map(md_seq_insert(md, k, v)) == md_map(md).insert(k, v),
    decreases md.len(),
{
    if md.len() == 0 {
        let res = md_seq_insert(md, k, v);
        assert(res[0] == (k, v));
        assert(res.drop_first() =~= Seq::<(Seq<char>, Seq<char>)>::empty());
        assert(md_map(res) == md_map(res.drop_first()).insert(k, v));
        assert(md_map(res.drop_first()) == Map::<Seq<char>, Seq<char>>::empty());
        assert(md_map(res) == md_map(md).insert(k, v));
    } else if lex_lt(k, md[0].0) {
        let res = md_seq_insert(md, k, v);
        assert(res[0] == (k, v));
        assert(res.drop_first() =~= md);
        assert(md_map(res) == md_map(md).insert(k, v));
    } else if k == md[0].0 {
        let res = md_seq_insert(md, k, v);
        let t = md.drop_first();
        assert(res[0] == (k, v));
        assert(res.drop_first() =~= t);
        assert(md_map(res) == md_map(t).insert(k, v));
        assert(md_map(md) == md_map(t).insert(md[0].0, md[0].1));
        assert(md_map(t).insert(md[0].0, md[0].1).insert(k, v) =~= md_map(t).insert(k, v));
    } else {
        let res = md_seq_insert(md, k, v);
        let t = md.drop_first();
        lemma_md_insert_map(t, k, v);
        assert(res[0] == md[0]);
        assert(res.drop_first() =~= md_seq_insert(t, k, v));
        assert(md_map(res) == md_map(t).insert(k, v).insert(md[0].0, md[0].1));
        assert(md_map(md).insert(k, v) == md_map(t).insert(md[0].0, md[0].1).insert(k, v));
        assert(md_map(t).insert(k, v).insert(md[0].0, md[0].1) =~= md_map(t).insert(
            md[0].0,
            md[0].1,
        ).insert(k, v));
    }
}

/// An empty metadata mapping is omitted entirely from the serialized
/// `ErrorInfo`; a non-empty one is present, its entries in sequence order.
pub proof fn lemma_metadata_omitted_iff_empty(e: ErrorInfo)
    ensures
        e@.metadata.len() == 0 ==> ser_error_info(e@) == "{\"type\":\"ERROR_INFO\",\"reason\":"@
            + ser_str(e@.reason) + ",\"domain\":"@ + ser_str(e@.domain) + seq!['}'],
        e@.metadata.len() > 0 ==> ser_error_info(e@) == "{\"type\":\"ERROR_INFO\",\"reason\":"@
            + ser_str(e@.reason) + ",\"domain\":"@ + ser_str(e@.domain) + ",\"metadata\":{"@
            + ser_md_entries(e@.metadata) + "}}"@,
{
}

/// An empty detail list is omitted entirely from the serialized `Status`; a
/// non-empty one is present, its records in sequence order.
pub proof fn lemma_error_details_omitted_iff_empty(w: StatusView)
    ensures
        w.details.error_details.len() == 0 ==> ser_status(w) == "{\"code\":"@ + ser_str(
            spec_code_token(w.code),
        ) + ",\"message\":"@ + ser_str(w.details.message) + seq!['}'],
        w.details.error_details.len() > 0 ==> ser_status(w) == "{\"code\":"@ + ser_str(
            spec_code_token(w.code),
        ) + ",\"message\":"@ + ser_str(w.details.message) + ",\"error_details\":["@
            + ser_details_list(w.details.error_details) + "]}"@,
{
}

} // verus!
