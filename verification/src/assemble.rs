use vstd::multiset::Multiset;
use vstd::prelude::*;

use crate::directory::ContactDirectory;
use crate::resolve::{lookup_contact_name, resolve_spec};
use crate::timestamp::{
    format_timestamp, format_timestamp_spec, mac_timestamp_to_unix, mac_to_unix_spec,
    unix_to_mac_spec, unix_to_mac_timestamp, MAC_EPOCH_OFFSET, MAX_STORE_SECONDS,
    NANOS_PER_SECOND,
};
use crate::types::{
    Attachment, AttachmentRow, AttachmentRowV, AttachmentV, ExportOptions, ExportOptionsV, Message,
    MessageRow, MessageRowV, MessageV, Reaction, ReactionRow, ReactionRowV, ReactionV,
};

verus! {

/// The abstract rows a row vector denotes.
pub open spec fn rows_v(s: Seq<MessageRow>) -> Seq<MessageRowV> {
    s.map_values(|r: MessageRow| r@)
}

/// The abstract messages a message vector denotes.
pub open spec fn msgs_v(s: Seq<Message>) -> Seq<MessageV> {
    s.map_values(|m: Message| m@)
}

/// The filter an optional `ExportOptions` denotes: absence means no bound
/// at all.
pub open spec fn options_view(o: Option<ExportOptions>) -> ExportOptionsV {
    match o {
        Some(x) => x@,
        None => ExportOptionsV { start_date: None, end_date: None, contact_ids: None },
    }
}

/// Both date bounds, where present, lie in the range whose store-native
/// form still fits in an `i64`.
pub open spec fn options_in_range(o: ExportOptionsV) -> bool {
    &&& (o.start_date matches Some(s) ==> MAC_EPOCH_OFFSET - MAX_STORE_SECONDS <= s
        <= MAC_EPOCH_OFFSET + MAX_STORE_SECONDS)
    &&& (o.end_date matches Some(e) ==> MAC_EPOCH_OFFSET - MAX_STORE_SECONDS <= e
        <= MAC_EPOCH_OFFSET + MAX_STORE_SECONDS)
}

/// Whether a raw row survives the primary fetch: a positive timestamp, an
/// ordinary type code (zero or absent), timestamps inside the requested
/// store-native range, and — when a non-empty contact filter is given — a
/// handle among the requested ones.
pub open spec fn row_passes(r: MessageRowV, o: ExportOptionsV) -> bool {
    &&& r.date > 0
    &&& (r.assoc_type matches Some(t) ==> t == 0)
    &&& (o.start_date matches Some(s) ==> r.date >= unix_to_mac_spec(s as int))
    &&& (o.end_date matches Some(e) ==> r.date <= unix_to_mac_spec(e as int))
    &&& (match o.contact_ids {
        Some(ids) => ids.len() > 0 ==> ids.contains(r.handle_id),
        None => true,
    })
}

/// Insert a row into a timestamp-descending sequence: it goes in front of
/// the first strictly older row, so an equal timestamp keeps earlier rows
/// first.
pub open spec fn insert_desc(x: MessageRowV, s: Seq<MessageRowV>) -> Seq<MessageRowV>
    decreases s.len(),
{
    if s.len() == 0 {
        seq![x]
    } else if x.date > s[0].date {
        seq![x] + s
    } else {
        seq![s[0]] + insert_desc(x, s.drop_first())
    }
}

/// The stable timestamp-descending ordering of a row sequence: each row
/// inserted in turn.
pub open spec fn sort_desc(s: Seq<MessageRowV>) -> Seq<MessageRowV>
    decreases s.len(),
{
    if s.len() == 0 {
        Seq::empty()
    } else {
        insert_desc(s.last(), sort_desc(s.drop_last()))
    }
}

/// A sequence ordered newest first.
pub open spec fn sorted_desc(s: Seq<MessageRowV>) -> bool {
    forall|i: int, j: int| 0 <= i < j < s.len() ==> s[i].date >= s[j].date
}

/// The row cap: a non-negative limit truncates after ordering; absence or
/// a negative value leaves the listing whole.
pub open spec fn cap_rows_spec(s: Seq<MessageRowV>, limit: Option<i64>) -> Seq<MessageRowV> {
    match limit {
        None => s,
        Some(l) => if l < 0 || l >= s.len() {
            s
        } else {
            s.take(l as int)
        },
    }
}

/// The rows with each store message kept once: a message linked to
/// several chats arrives from the join as several rows, and only the
/// first linkage is retained — a later row whose id already occurred is
/// dropped.
pub open spec fn first_linkage_only(s: Seq<MessageRowV>) -> Seq<MessageRowV>
    decreases s.len(),
{
    if s.len() == 0 {
        Seq::empty()
    } else {
        let rest = first_linkage_only(s.drop_last());
        if exists|j: int| 0 <= j < s.len() - 1 && (#[trigger] s[j]).id == s.last().id {
            rest
        } else {
            rest.push(s.last())
        }
    }
}

/// No two rows share a message id.
pub open spec fn distinct_ids(s: Seq<MessageRowV>) -> bool {
    forall|a: int, b: int| 0 <= a < b < s.len() ==> s[a].id != s[b].id
}

/// An id occurs among the first-linkage rows exactly when it occurs among
/// the rows themselves.
proof fn lemma_first_linkage_id_present(s: Seq<MessageRowV>, d: i64)
    ensures
        (exists|j: int| 0 <= j < s.len() && (#[trigger] s[j]).id == d) <==> (exists|k: int|
            0 <= k < first_linkage_only(s).len() && (#[trigger] first_linkage_only(s)[k]).id == d),
    decreases s.len(),
{
    if s.len() > 0 {
        lemma_first_linkage_id_present(s.drop_last(), d);
        lemma_first_linkage_id_present(s.drop_last(), s.last().id);
        let rest = first_linkage_only(s.drop_last());
        let f = first_linkage_only(s);
        if exists|j: int| 0 <= j < s.len() && (#[trigger] s[j]).id == d {
            let j = choose|j: int| 0 <= j < s.len() && (#[trigger] s[j]).id == d;
            if j < s.len() - 1 {
                assert(s.drop_last()[j].id == d);
                let k = choose|k: int| 0 <= k < rest.len() && (#[trigger] rest[k]).id == d;
                assert(f[k].id == d);
            } else {
                if exists|jj: int| 0 <= jj < s.len() - 1 && (#[trigger] s[jj]).id == s.last().id {
                    let jj = choose|jj: int|
                        0 <= jj < s.len() - 1 && (#[trigger] s[jj]).id == s.last().id;
                    assert(s.drop_last()[jj].id == d);
                    let k = choose|k: int| 0 <= k < rest.len() && (#[trigger] rest[k]).id == d;
                    assert(f[k].id == d);
                } else {
                    assert(f[f.len() - 1].id == d);
                }
            }
        }
        if exists|k: int| 0 <= k < f.len() && (#[trigger] f[k]).id == d {
            let k = choose|k: int| 0 <= k < f.len() && (#[trigger] f[k]).id == d;
            if k < rest.len() {
                assert(rest[k].id == d);
                let jj = choose|jj: int|
                    0 <= jj < s.drop_last().len() && (#[trigger] s.drop_last()[jj]).id == d;
                assert(s[jj].id == d);
            } else {
                assert(s[s.len() - 1].id == d);
            }
        }
    }
}

/// Keeping only first linkages keeps only rows that were there, and
/// leaves every id at most once.
proof fn lemma_first_linkage_contents(s: Seq<MessageRowV>)
    ensures
        forall|k: int|
            0 <= k < first_linkage_only(s).len() ==> s.contains(
                #[trigger] first_linkage_only(s)[k],
            ),
        distinct_ids(first_linkage_only(s)),
    decreases s.len(),
{
    if s.len() > 0 {
        lemma_first_linkage_contents(s.drop_last());
        lemma_first_linkage_id_present(s.drop_last(), s.last().id);
        let rest = first_linkage_only(s.drop_last());
        let f = first_linkage_only(s);
        assert forall|k: int| 0 <= k < f.len() implies s.contains(#[trigger] f[k]) by {
            if k < rest.len() {
                assert(s.drop_last().contains(rest[k]));
                let m = choose|m: int|
                    0 <= m < s.drop_last().len() && s.drop_last()[m] == rest[k];
                assert(s[m] == f[k]);
            } else {
                assert(s[s.len() - 1] == f[k]);
            }
        };
        assert forall|a: int, b: int| 0 <= a < b < f.len() implies f[a].id != f[b].id by {
            if b < rest.len() {
            } else if f.len() > rest.len() {
                assert(f[b] == s.last());
                assert(f[a] == rest[a]);
                if f[a].id == s.last().id {
                    assert(exists|k: int|
                        0 <= k < rest.len() && (#[trigger] rest[k]).id == s.last().id);
                }
            }
        };
    }
}

/// The rows the primary fetch yields for a request: filtered, each store
/// message kept once with its first chat linkage, ordered newest first,
/// then capped.
pub open spec fn selected_rows_spec(
    rows: Seq<MessageRowV>,
    o: ExportOptionsV,
    limit: Option<i64>,
) -> Seq<MessageRowV> {
    cap_rows_spec(
        sort_desc(first_linkage_only(rows.filter(|r: MessageRowV| row_passes(r, o)))),
        limit,
    )
}

/// Whether a vector of row ids holds the given id.
fn contains_i64(v: &Vec<i64>, x: i64) -> (r: bool)
    ensures
        r == v@.contains(x),
{
    let mut i: usize = 0;
    while i < v.len()
        invariant
            i <= v@.len(),
            forall|j: int| 0 <= j < i ==> v@[j] != x,
        decreases v@.len() - i,
    {
        if v[i] == x {
            return true;
        }
        i = i + 1;
    }
    false
}

/// Removing the first of the remaining rows advances the abstract cursor
/// by one position.
proof fn lemma_rows_v_remove_first(
    pre: Seq<MessageRow>,
    post: Seq<MessageRow>,
    orig: Seq<MessageRowV>,
    i: int,
)
    requires
        0 < pre.len(),
        post == pre.remove(0),
        0 <= i,
        rows_v(pre).len() == pre.len(),
        i + pre.len() == orig.len(),
        rows_v(pre) == orig.skip(i),
    ensures
        pre[0]@ == orig[i],
        rows_v(post) =~= orig.skip(i + 1),
{
    assert(rows_v(pre)[0] == pre[0]@);
    assert(orig.skip(i)[0] == orig[i]);
    assert forall|k: int| 0 <= k < post.len() implies rows_v(post)[k] == orig.skip(i + 1)[k] by {
        assert(post[k] == pre[k + 1]);
        assert(rows_v(post)[k] == post[k]@);
        assert(rows_v(pre)[k + 1] == pre[k + 1]@);
        assert(orig.skip(i)[k + 1] == orig[i + 1 + k]);
        assert(orig.skip(i + 1)[k] == orig[i + 1 + k]);
    };
    assert(rows_v(post).len() == post.len());
}

/// Keep exactly the raw rows that pass the compiled filter, in their
/// incoming order.
pub fn filter_rows(rows: Vec<MessageRow>, options: &Option<ExportOptions>) -> (r: Vec<MessageRow>)
    requires
        options_in_range(options_view(*options)),
    ensures
        rows_v(r@) == rows_v(rows@).filter(
            |x: MessageRowV| row_passes(x, options_view(*options)),
        ),
{
    let ghost o = options_view(*options);
    let ghost pred = |x: MessageRowV| row_passes(x, o);
    let ghost orig = rows_v(rows@);
    let start_mac: Option<i64> = match options {
        Some(op) => match op.start_date {
            Some(s) => Some(unix_to_mac_timestamp(s)),
            None => None,
        },
        None => None,
    };
    let end_mac: Option<i64> = match options {
        Some(op) => match op.end_date {
            Some(e) => Some(unix_to_mac_timestamp(e)),
            None => None,
        },
        None => None,
    };
    let ghost sm: Option<int> = match o.start_date {
        Some(s) => Some(unix_to_mac_spec(s as int)),
        None => None,
    };
    let ghost em: Option<int> = match o.end_date {
        Some(e) => Some(unix_to_mac_spec(e as int)),
        None => None,
    };
    proof {
        assert(match (start_mac, sm) {
            (Some(m), Some(g)) => m == g,
            (None, None) => true,
            _ => false,
        });
        assert(match (end_mac, em) {
            (Some(m), Some(g)) => m == g,
            (None, None) => true,
            _ => false,
        });
    }
    let mut rest = rows;
    let mut kept: Vec<MessageRow> = Vec::new();
    let ghost total = orig.len();
    while rest.len() > 0
        invariant
            rows_v(rest@).len() == rest@.len(),
            rows_v(rest@) =~= orig.skip(total - rest@.len() as int),
            rest@.len() <= total,
            rows_v(kept@) == orig.take(total - rest@.len() as int).filter(pred),
            pred == (|x: MessageRowV| row_passes(x, o)),
            orig.len() == total,
            o == options_view(*options),
            sm == (match o.start_date {
                Some(s) => Some(unix_to_mac_spec(s as int)),
                None => None::<int>,
            }),
            em == (match o.end_date {
                Some(e) => Some(unix_to_mac_spec(e as int)),
                None => None::<int>,
            }),
            (match (start_mac, sm) {
                (Some(m), Some(g)) => m == g,
                (None, None) => true,
                _ => false,
            }),
            (match (end_mac, em) {
                (Some(m), Some(g)) => m == g,
                (None, None) => true,
                _ => false,
            }),
        decreases rest@.len(),
    {
        let ghost i = total - rest@.len() as int;
        let ghost pre = rest@;
        let x = rest.remove(0);
        proof {
            lemma_rows_v_remove_first(pre, rest@, orig, i);
        }
        let mut ok: bool = x.date > 0;
        match x.assoc_type {
            Some(t) => if t != 0 {
                ok = false;
            },
            None => {},
        }
        match start_mac {
            Some(m) => if x.date < m {
                ok = false;
            },
            None => {},
        }
        match end_mac {
            Some(m) => if x.date > m {
                ok = false;
            },
            None => {},
        }
        match options {
            Some(op) => match &op.contact_ids {
                Some(ids) => if ids.len() > 0 {
                    if !contains_i64(ids, x.handle_id) {
                        ok = false;
                    }
                },
                None => {},
            },
            None => {},
        }
        assert(ok == row_passes(x@, o));
        let ghost prev_kept = rows_v(kept@);
        if ok {
            kept.push(x);
            proof {
                assert(rows_v(kept@) =~= prev_kept.push(orig[i]));
            }
        }
        proof {
            let t = orig.take(i + 1);
            assert(t.drop_last() =~= orig.take(i));
            assert(t.last() == orig[i]);
            reveal_with_fuel(Seq::filter, 2);
            assert(rows_v(kept@) == orig.take(i + 1).filter(pred));
        }
    }
    proof {
        assert(orig.take(total - 0) =~= orig);
    }
    kept
}

/// Inserting at the position just before the first strictly older row is
/// exactly what `insert_desc` denotes.
proof fn lemma_insert_desc_at(s: Seq<MessageRowV>, x: MessageRowV, j: int)
    requires
        0 <= j <= s.len(),
        forall|i: int| 0 <= i < j ==> #[trigger] s[i].date >= x.date,
        j < s.len() ==> x.date > s[j].date,
    ensures
        insert_desc(x, s) == s.insert(j, x),
    decreases s.len(),
{
    if s.len() == 0 {
        assert(s.insert(0, x) =~= seq![x]);
    } else if x.date > s[0].date {
        assert(j == 0);
        assert(s.insert(0, x) =~= seq![x] + s);
    } else {
        assert(s[0].date >= x.date);
        assert(j >= 1);
        lemma_insert_desc_at(s.drop_first(), x, j - 1);
        assert(forall|i: int|
            0 <= i < j - 1 ==> #[trigger] s.drop_first()[i].date == s[i + 1].date);
        assert(s.insert(j, x) =~= seq![s[0]] + s.drop_first().insert(j - 1, x));
    }
}

/// Order rows newest first, stably: rows with equal timestamps keep their
/// incoming order.
pub fn sort_rows_desc(rows: Vec<MessageRow>) -> (r: Vec<MessageRow>)
    ensures
        rows_v(r@) == sort_desc(rows_v(rows@)),
{
    let ghost orig = rows_v(rows@);
    let ghost total = orig.len();
    let mut rest = rows;
    let mut out: Vec<MessageRow> = Vec::new();
    while rest.len() > 0
        invariant
            rows_v(rest@).len() == rest@.len(),
            rows_v(rest@) =~= orig.skip(total - rest@.len() as int),
            rest@.len() <= total,
            rows_v(out@) == sort_desc(orig.take(total - rest@.len() as int)),
            orig.len() == total,
        decreases rest@.len(),
    {
        let ghost i = total - rest@.len() as int;
        let ghost pre = rest@;
        let x = rest.remove(0);
        proof {
            lemma_rows_v_remove_first(pre, rest@, orig, i);
        }
        let mut j: usize = 0;
        while j < out.len() && out[j].date >= x.date
            invariant
                j <= out@.len(),
                forall|k: int| 0 <= k < j ==> #[trigger] rows_v(out@)[k].date >= x@.date,
            decreases out@.len() - j,
        {
            assert(rows_v(out@)[j as int].date == out@[j as int]@.date);
            j = j + 1;
        }
        proof {
            if j < out@.len() {
                assert(rows_v(out@)[j as int].date == out@[j as int]@.date);
            }
            lemma_insert_desc_at(rows_v(out@), x@, j as int);
        }
        let ghost prev = rows_v(out@);
        out.insert(j, x);
        proof {
            assert(rows_v(out@) =~= prev.insert(j as int, x@));
            let t = orig.take(i + 1);
            assert(t.drop_last() =~= orig.take(i));
            assert(t.last() == orig[i]);
            assert(rows_v(out@) == sort_desc(orig.take(i + 1)));
        }
    }
    proof {
        assert(orig.take(total - 0) =~= orig);
    }
    out
}

/// Truncate an ordered listing to the optional row cap; a negative cap
/// means no cap, as the store's own limit clause does.
pub fn cap_rows(rows: Vec<MessageRow>, limit: Option<i64>) -> (r: Vec<MessageRow>)
    ensures
        rows_v(r@) == cap_rows_spec(rows_v(rows@), limit),
{
    let ghost orig = rows_v(rows@);
    let mut out = rows;
    match limit {
        None => {},
        Some(l) => {
            if l >= 0 {
                while (out.len() as u64) > (l as u64)
                    invariant
                        l >= 0,
                        rows_v(out@) =~= orig.take(out@.len() as int),
                        out@.len() <= orig.len(),
                        out@.len() as int >= l as int || out@.len() == orig.len(),
                    decreases out@.len(),
                {
                    let ghost before = rows_v(out@);
                    out.pop();
                    proof {
                        assert(rows_v(out@) =~= before.drop_last());
                        assert(before.drop_last() =~= orig.take(out@.len() as int));
                    }
                }
                proof {
                    if l < orig.len() {
                        assert(out@.len() as int == l);
                    } else {
                        assert(rows_v(out@) =~= orig);
                    }
                }
            }
        },
    }
    out
}



/// Keep each store message's first row, dropping later rows with the same
/// id: of a message's several chat linkages only the first is retained.
pub fn dedup_rows(rows: Vec<MessageRow>) -> (r: Vec<MessageRow>)
    ensures
        rows_v(r@) == first_linkage_only(rows_v(rows@)),
{
    let ghost orig = rows_v(rows@);
    let ghost total = orig.len();
    let mut rest = rows;
    let mut out: Vec<MessageRow> = Vec::new();
    while rest.len() > 0
        invariant
            rows_v(rest@).len() == rest@.len(),
            rows_v(rest@) =~= orig.skip(total - rest@.len() as int),
            rest@.len() <= total,
            rows_v(out@) == first_linkage_only(orig.take(total - rest@.len() as int)),
            orig.len() == total,
        decreases rest@.len(),
    {
        let ghost i = total - rest@.len() as int;
        let ghost pre = rest@;
        let x = rest.remove(0);
        proof {
            lemma_rows_v_remove_first(pre, rest@, orig, i);
        }
        let mut seen: bool = false;
        let mut k: usize = 0;
        while k < out.len() && !seen
            invariant
                k <= out@.len(),
                rows_v(out@).len() == out@.len(),
                !seen ==> forall|kk: int|
                    0 <= kk < k ==> (#[trigger] rows_v(out@)[kk]).id != x@.id,
                seen ==> exists|kk: int|
                    0 <= kk < out@.len() && (#[trigger] rows_v(out@)[kk]).id == x@.id,
            decreases out@.len() - k + (if seen {
                0int
            } else {
                1int
            }),
        {
            proof {
                assert(rows_v(out@)[k as int] == out@[k as int]@);
            }
            if out[k].id == x.id {
                seen = true;
            } else {
                k = k + 1;
            }
        }
        proof {
            lemma_first_linkage_id_present(orig.take(i), x@.id);
            let t = orig.take(i + 1);
            assert(t.drop_last() =~= orig.take(i));
            assert(t.last() == orig[i]);
            let ov = rows_v(out@);
            if seen {
                let kk = choose|kk: int|
                    0 <= kk < ov.len() && (#[trigger] ov[kk]).id == x@.id;
                let j = choose|j: int|
                    0 <= j < orig.take(i).len() && (#[trigger] orig.take(i)[j]).id == x@.id;
                assert(t[j].id == t.last().id);
            } else {
                if exists|j: int| 0 <= j < t.len() - 1 && (#[trigger] t[j]).id == t.last().id {
                    let j = choose|j: int|
                        0 <= j < t.len() - 1 && (#[trigger] t[j]).id == t.last().id;
                    assert(orig.take(i)[j].id == x@.id);
                    let kk = choose|kk: int|
                        0 <= kk < ov.len() && (#[trigger] ov[kk]).id == x@.id;
                    assert(false);
                }
            }
        }
        let ghost prev = rows_v(out@);
        if !seen {
            out.push(x);
            proof {
                assert(rows_v(out@) =~= prev.push(orig[i]));
            }
        }
        proof {
            assert(rows_v(out@) == first_linkage_only(orig.take(i + 1)));
        }
    }
    proof {
        assert(orig.take(total - 0) =~= orig);
    }
    out
}

/// Inserting into a timestamp-descending sequence adds exactly that row:
/// the contents as a multiset grow by it, and every row of the result is
/// the inserted one or one already present.
proof fn lemma_insert_desc_contents(x: MessageRowV, s: Seq<MessageRowV>)
    ensures
        insert_desc(x, s).len() == s.len() + 1,
        insert_desc(x, s).to_multiset() == s.to_multiset().insert(x),
        forall|k: int|
            0 <= k < insert_desc(x, s).len() ==> insert_desc(x, s)[k] == x || s.contains(
                #[trigger] insert_desc(x, s)[k],
            ),
    decreases s.len(),
{
    broadcast use vstd::seq_lib::group_to_multiset_ensures;

    if s.len() == 0 {
        assert(seq![x] =~= Seq::<MessageRowV>::empty().push(x));
        assert(insert_desc(x, s).to_multiset() =~= s.to_multiset().insert(x));
    } else if x.date > s[0].date {
        vstd::seq_lib::lemma_multiset_commutative(seq![x], s);
        assert(seq![x] =~= Seq::<MessageRowV>::empty().push(x));
        assert(seq![x].to_multiset() =~= Multiset::<MessageRowV>::empty().insert(x));
        assert((seq![x] + s).to_multiset() =~= s.to_multiset().insert(x));
        assert(forall|k: int| 1 <= k < (seq![x] + s).len() ==> (seq![x] + s)[k] == s[k - 1]);
    } else {
        lemma_insert_desc_contents(x, s.drop_first());
        let rec = insert_desc(x, s.drop_first());
        vstd::seq_lib::lemma_multiset_commutative(seq![s[0]], rec);
        assert(seq![s[0]] =~= Seq::<MessageRowV>::empty().push(s[0]));
        assert(seq![s[0]].to_multiset() =~= Multiset::<MessageRowV>::empty().insert(s[0]));
        assert(s =~= seq![s[0]] + s.drop_first());
        vstd::seq_lib::lemma_multiset_commutative(seq![s[0]], s.drop_first());
        assert((seq![s[0]] + rec).to_multiset() =~= s.to_multiset().insert(x));
        assert forall|k: int| 0 <= k < (seq![s[0]] + rec).len() implies (seq![s[0]] + rec)[k] == x
            || s.contains((seq![s[0]] + rec)[k]) by {
            if k == 0 {
                assert(s[0] == (seq![s[0]] + rec)[0]);
                assert(s.contains(s[0]));
            } else {
                assert((seq![s[0]] + rec)[k] == rec[k - 1]);
                if rec[k - 1] == x {
                } else {
                    let m = choose|m: int|
                        0 <= m < s.drop_first().len() && s.drop_first()[m] == rec[k - 1];
                    assert(s[m + 1] == rec[k - 1]);
                }
            }
        };
    }
}

/// Inserting into a timestamp-descending sequence keeps it descending.
proof fn lemma_insert_desc_sorted(x: MessageRowV, s: Seq<MessageRowV>)
    requires
        sorted_desc(s),
    ensures
        sorted_desc(insert_desc(x, s)),
    decreases s.len(),
{
    if s.len() == 0 {
    } else if x.date > s[0].date {
        assert(forall|k: int| 1 <= k < (seq![x] + s).len() ==> (seq![x] + s)[k] == s[k - 1]);
    } else {
        assert(sorted_desc(s.drop_first()));
        lemma_insert_desc_sorted(x, s.drop_first());
        lemma_insert_desc_contents(x, s.drop_first());
        let rec = insert_desc(x, s.drop_first());
        assert forall|i: int, j: int| 0 <= i < j < (seq![s[0]] + rec).len() implies (seq![s[0]]
            + rec)[i].date >= (seq![s[0]] + rec)[j].date by {
            if i == 0 {
                let y = rec[j - 1];
                assert((seq![s[0]] + rec)[j] == y);
                if y == x {
                    assert(s[0].date >= x.date);
                } else {
                    assert(s.drop_first().contains(y));
                    let m = choose|m: int|
                        0 <= m < s.drop_first().len() && s.drop_first()[m] == y;
                    assert(s[m + 1] == y);
                }
            } else {
                assert((seq![s[0]] + rec)[i] == rec[i - 1]);
                assert((seq![s[0]] + rec)[j] == rec[j - 1]);
            }
        };
    }
}

/// The stable descending sort reorders but neither adds nor drops rows,
/// and its result is ordered newest first.
pub proof fn lemma_sort_desc_properties(s: Seq<MessageRowV>)
    ensures
        sort_desc(s).len() == s.len(),
        sort_desc(s).to_multiset() == s.to_multiset(),
        sorted_desc(sort_desc(s)),
        forall|k: int| 0 <= k < sort_desc(s).len() ==> s.contains(#[trigger] sort_desc(s)[k]),
    decreases s.len(),
{
    broadcast use vstd::seq_lib::group_to_multiset_ensures;

    if s.len() == 0 {
    } else {
        lemma_sort_desc_properties(s.drop_last());
        lemma_insert_desc_contents(s.last(), sort_desc(s.drop_last()));
        lemma_insert_desc_sorted(s.last(), sort_desc(s.drop_last()));
        assert(s =~= s.drop_last().push(s.last()));
        assert(s.to_multiset() =~= s.drop_last().to_multiset().insert(s.last()));
        assert forall|k: int| 0 <= k < sort_desc(s).len() implies s.contains(
            #[trigger] sort_desc(s)[k],
        ) by {
            let y = sort_desc(s)[k];
            if y == s.last() {
                assert(s[s.len() - 1] == y);
            } else {
                assert(sort_desc(s.drop_last()).contains(y));
                let m = choose|m: int|
                    0 <= m < sort_desc(s.drop_last()).len() && sort_desc(s.drop_last())[m] == y;
                assert(s.drop_last().contains(sort_desc(s.drop_last())[m]));
                let n = choose|n: int| 0 <= n < s.drop_last().len() && s.drop_last()[n] == y;
                assert(s[n] == y);
            }
        };
    }
}


/// Inserting a row whose id is fresh keeps the ids pairwise distinct.
proof fn lemma_insert_desc_distinct_ids(x: MessageRowV, s: Seq<MessageRowV>)
    requires
        distinct_ids(s),
        forall|k: int| 0 <= k < s.len() ==> (#[trigger] s[k]).id != x.id,
    ensures
        distinct_ids(insert_desc(x, s)),
    decreases s.len(),
{
    if s.len() == 0 {
    } else if x.date > s[0].date {
        let r = seq![x] + s;
        assert forall|a: int, b: int| 0 <= a < b < r.len() implies r[a].id != r[b].id by {
            if a == 0 {
                assert(r[b] == s[b - 1]);
            } else {
                assert(r[a] == s[a - 1]);
                assert(r[b] == s[b - 1]);
            }
        };
    } else {
        assert forall|a: int, b: int|
            0 <= a < b < s.drop_first().len() implies (#[trigger] s.drop_first()[a]).id != (
        #[trigger] s.drop_first()[b]).id by {
            assert(s.drop_first()[a] == s[a + 1]);
            assert(s.drop_first()[b] == s[b + 1]);
        };
        assert forall|k: int|
            0 <= k < s.drop_first().len() implies (#[trigger] s.drop_first()[k]).id != x.id by {
            assert(s.drop_first()[k] == s[k + 1]);
        };
        lemma_insert_desc_distinct_ids(x, s.drop_first());
        lemma_insert_desc_contents(x, s.drop_first());
        let rec = insert_desc(x, s.drop_first());
        let r = seq![s[0]] + rec;
        assert forall|a: int, b: int| 0 <= a < b < r.len() implies r[a].id != r[b].id by {
            if a == 0 {
                let y = rec[b - 1];
                assert(r[b] == y);
                if y == x {
                    assert(s[0].id != x.id);
                } else {
                    assert(s.drop_first().contains(y));
                    let m = choose|m: int|
                        0 <= m < s.drop_first().len() && s.drop_first()[m] == y;
                    assert(s[m + 1] == y);
                }
            } else {
                assert(r[a] == rec[a - 1]);
                assert(r[b] == rec[b - 1]);
            }
        };
    }
}

/// Ordering rows whose ids are pairwise distinct keeps them so.
proof fn lemma_sort_desc_distinct_ids(s: Seq<MessageRowV>)
    requires
        distinct_ids(s),
    ensures
        distinct_ids(sort_desc(s)),
    decreases s.len(),
{
    if s.len() > 0 {
        assert forall|a: int, b: int|
            0 <= a < b < s.drop_last().len() implies (#[trigger] s.drop_last()[a]).id != (
        #[trigger] s.drop_last()[b]).id by {
            assert(s.drop_last()[a] == s[a]);
            assert(s.drop_last()[b] == s[b]);
        };
        lemma_sort_desc_distinct_ids(s.drop_last());
        lemma_sort_desc_properties(s.drop_last());
        let sd = sort_desc(s.drop_last());
        assert forall|k: int| 0 <= k < sd.len() implies (#[trigger] sd[k]).id != s.last().id by {
            assert(s.drop_last().contains(sd[k]));
            let m = choose|m: int| 0 <= m < s.drop_last().len() && s.drop_last()[m] == sd[k];
            assert(s[m] == sd[k]);
        };
        lemma_insert_desc_distinct_ids(s.last(), sd);
    }
}

/// The parent reference's payload: everything after the last '/' of the
/// string, or the whole string when it has no '/' at all. This mirrors the
/// store's two encodings of a parent reference, "p:<n>/<guid>" and
/// "bp:<guid>".
pub open spec fn after_last_slash(s: Seq<char>) -> Seq<char>
    decreases s.len(),
{
    if s.len() == 0 {
        s
    } else if s.last() == '/' {
        Seq::empty()
    } else {
        after_last_slash(s.drop_last()).push(s.last())
    }
}

/// A cut just past the last '/' marks off exactly the suffix that
/// `after_last_slash` denotes.
proof fn lemma_after_last_slash_cut(s: Seq<char>, j: int)
    requires
        0 <= j <= s.len(),
        j == 0 || s[j - 1] == '/',
        forall|m: int| j <= m < s.len() ==> s[m] != '/',
    ensures
        after_last_slash(s) == s.subrange(j, s.len() as int),
    decreases s.len(),
{
    if s.len() == 0 {
        assert(after_last_slash(s) =~= s.subrange(0, 0));
    } else if s.last() == '/' {
        assert(j == s.len());
        assert(s.subrange(j, s.len() as int) =~= Seq::<char>::empty());
    } else {
        assert(j < s.len());
        lemma_after_last_slash_cut(s.drop_last(), j);
        assert(s.drop_last().subrange(j, s.len() - 1) =~= s.subrange(j, s.len() - 1));
        assert(after_last_slash(s) =~= s.subrange(j, s.len() as int));
    }
}

/// The parent guid an embedded parent reference denotes: the part after
/// the last '/' — the whole reference when it has no '/' — with a leading
/// "bp:" tag stripped from what remains. This covers the store's two
/// observed encodings of a parent reference, "p:<n>/<guid>" and
/// "bp:<guid>".
pub open spec fn parent_guid_spec(s: Seq<char>) -> Seq<char> {
    let t = after_last_slash(s);
    if t.len() >= 3 && t[0] == 'b' && t[1] == 'p' && t[2] == ':' {
        t.subrange(3, t.len() as int)
    } else {
        t
    }
}

/// Extract the parent guid from an embedded parent reference: the part
/// after the last '/', with a leading "bp:" tag stripped from what
/// remains.
pub fn clean_guid(reference: &str) -> (r: String)
    ensures
        r@ == parent_guid_spec(reference@),
{
    let len = reference.unicode_len();
    let mut cut: usize = 0;
    let mut k: usize = 0;
    while k < len
        invariant
            cut <= k <= len,
            len == reference@.len(),
            cut == 0 || reference@[cut - 1] == '/',
            forall|m: int| cut <= m < k ==> reference@[m] != '/',
        decreases len - k,
    {
        let c = reference.get_char(k);
        if c == '/' {
            cut = k + 1;
        }
        k = k + 1;
    }
    proof {
        lemma_after_last_slash_cut(reference@, cut as int);
    }
    let mut start: usize = cut;
    if len - cut >= 3 {
        if reference.get_char(cut) == 'b' && reference.get_char(cut + 1) == 'p'
            && reference.get_char(cut + 2) == ':' {
            start = cut + 3;
        }
    }
    proof {
        let t = reference@.subrange(cut as int, len as int);
        assert(forall|m: int| 0 <= m < t.len() ==> t[m] == reference@[cut + m]);
        if start == cut {
            assert(!(t.len() >= 3 && t[0] == 'b' && t[1] == 'p' && t[2] == ':'));
        } else {
            assert(t.len() >= 3 && t[0] == 'b' && t[1] == 'p' && t[2] == ':');
            assert(reference@.subrange(start as int, len as int) =~= t.subrange(
                3,
                t.len() as int,
            ));
        }
    }
    reference.substring_char(start, len).to_owned()
}

/// The sender name a message shows: "Me" for a self-sent message,
/// "Unknown" for an empty identifier, else the resolved name, falling back
/// to the raw identifier itself.
pub open spec fn sender_name_spec(
    from_me: bool,
    cid: Seq<char>,
    m: Map<Seq<char>, Seq<char>>,
) -> Seq<char> {
    if from_me {
        "Me"@
    } else if cid.len() == 0 {
        "Unknown"@
    } else {
        match resolve_spec(cid, m) {
            Some(n) => n,
            None => cid,
        }
    }
}

/// The message a selected raw row assembles into, before attachments and
/// reactions are attached.
pub open spec fn message_of_row(r: MessageRowV, m: Map<Seq<char>, Seq<char>>) -> MessageV {
    MessageV {
        id: r.id,
        guid: r.guid,
        text: r.text,
        date: mac_to_unix_spec(r.date as int) as i64,
        date_formatted: format_timestamp_spec(mac_to_unix_spec(r.date as int)),
        is_from_me: r.is_from_me,
        handle_id: r.handle_id,
        contact_identifier: r.contact_identifier,
        sender_name: sender_name_spec(r.is_from_me, r.contact_identifier, m),
        chat_id: r.chat_id,
        has_attachment: r.has_attachment,
        attachments: Seq::empty(),
        reactions: Seq::empty(),
    }
}

/// Assemble each selected row into a message: convert and render its
/// timestamp and resolve its sender, leaving attachments and reactions
/// empty.
pub fn build_messages(rows: Vec<MessageRow>, contacts: &ContactDirectory) -> (r: Vec<Message>)
    requires
        forall|i: int| 0 <= i < rows@.len() ==> (#[trigger] rows@[i]@).date >= 0,
    ensures
        msgs_v(r@) == rows_v(rows@).map_values(|x: MessageRowV| message_of_row(x, contacts@)),
{
    let ghost orig = rows_v(rows@);
    let ghost dir = contacts@;
    let ghost f = |x: MessageRowV| message_of_row(x, dir);
    let ghost total = orig.len();
    let mut rest = rows;
    let mut out: Vec<Message> = Vec::new();
    proof {
        assert(forall|k: int| 0 <= k < orig.len() ==> (#[trigger] orig[k]) == rest@[k]@);
    }
    while rest.len() > 0
        invariant
            rows_v(rest@).len() == rest@.len(),
            rows_v(rest@) =~= orig.skip(total - rest@.len() as int),
            rest@.len() <= total,
            msgs_v(out@) == orig.take(total - rest@.len() as int).map_values(f),
            f == (|x: MessageRowV| message_of_row(x, dir)),
            dir == contacts@,
            orig.len() == total,
            forall|k: int| 0 <= k < orig.len() ==> (#[trigger] orig[k]).date >= 0,
        decreases rest@.len(),
    {
        let ghost i = total - rest@.len() as int;
        let ghost pre = rest@;
        let x = rest.remove(0);
        proof {
            lemma_rows_v_remove_first(pre, rest@, orig, i);
        }
        let unix = mac_timestamp_to_unix(x.date);
        let formatted = format_timestamp(unix);
        let sender: String = if x.is_from_me {
            "Me".to_owned()
        } else if x.contact_identifier.as_str().is_empty() {
            "Unknown".to_owned()
        } else {
            match lookup_contact_name(x.contact_identifier.as_str(), contacts) {
                Some(n) => n,
                None => x.contact_identifier.clone(),
            }
        };
        let ghost prev = msgs_v(out@);
        let msg = Message {
            id: x.id,
            guid: x.guid,
            text: x.text,
            date: unix,
            date_formatted: formatted,
            is_from_me: x.is_from_me,
            handle_id: x.handle_id,
            contact_identifier: x.contact_identifier,
            sender_name: sender,
            chat_id: x.chat_id,
            has_attachment: x.has_attachment,
            attachments: Vec::new(),
            reactions: Vec::new(),
        };
        proof {
            assert(msg@.attachments =~= Seq::<AttachmentV>::empty());
            assert(msg@.reactions =~= Seq::<ReactionV>::empty());
            assert(msg@ == message_of_row(orig[i], dir));
        }
        out.push(msg);
        proof {
            assert(msgs_v(out@) =~= prev.push(msg@));
            let t = orig.take(i + 1);
            assert(t.drop_last() =~= orig.take(i));
            assert(t.last() == orig[i]);
            assert(t.map_values(f) =~= orig.take(i).map_values(f).push(f(orig[i])));
            assert(msgs_v(out@) == orig.take(i + 1).map_values(f));
        }
    }
    proof {
        assert(orig.take(total - 0) =~= orig);
    }
    out
}



/// The abstract rows an attachment-row vector denotes.
pub open spec fn ars_v(s: Seq<AttachmentRow>) -> Seq<AttachmentRowV> {
    s.map_values(|a: AttachmentRow| a@)
}

/// The abstract rows a reaction-row vector denotes.
pub open spec fn rrs_v(s: Seq<ReactionRow>) -> Seq<ReactionRowV> {
    s.map_values(|r: ReactionRow| r@)
}

/// Position `i` holds the first message with the given row id.
pub open spec fn is_first_with_id(ms: Seq<MessageV>, i: int, id: i64) -> bool {
    &&& 0 <= i < ms.len()
    &&& ms[i].id == id
    &&& forall|j: int| 0 <= j < i ==> (#[trigger] ms[j]).id != id
}

/// Position `i` holds the first message with the given guid.
pub open spec fn is_first_with_guid(ms: Seq<MessageV>, i: int, g: Seq<char>) -> bool {
    &&& 0 <= i < ms.len()
    &&& ms[i].guid == g
    &&& forall|j: int| 0 <= j < i ==> (#[trigger] ms[j]).guid != g
}

/// The attachment a batch row describes.
pub open spec fn attachment_of_row(a: AttachmentRowV) -> AttachmentV {
    AttachmentV { filename: a.filename, mime_type: a.mime_type, transfer_name: a.transfer_name }
}

/// The attachments that end up on the message at position `i`: every batch
/// row whose owning id finds that message first, in batch order.
pub open spec fn attachments_for(ms: Seq<MessageV>, i: int, rows: Seq<AttachmentRowV>) -> Seq<
    AttachmentV,
> {
    rows.filter(|a: AttachmentRowV| is_first_with_id(ms, i, a.message_id)).map_values(
        |a: AttachmentRowV| attachment_of_row(a),
    )
}

/// The sender name a reaction shows: "Me" for a self-sent reaction, else
/// the resolved name, falling back to the raw identifier itself.
pub open spec fn reaction_sender_spec(
    from_me: bool,
    sender_id: Seq<char>,
    m: Map<Seq<char>, Seq<char>>,
) -> Seq<char> {
    if from_me {
        "Me"@
    } else {
        match resolve_spec(sender_id, m) {
            Some(n) => n,
            None => sender_id,
        }
    }
}

/// The reaction a pseudo-message row describes.
pub open spec fn reaction_of_row(r: ReactionRowV, m: Map<Seq<char>, Seq<char>>) -> ReactionV {
    ReactionV {
        reaction_type: r.reaction_type,
        sender: reaction_sender_spec(r.is_from_me, r.sender_id, m),
        is_from_me: r.is_from_me,
    }
}

/// Whether a reaction row lands on the message at position `i`: it carries
/// a parent reference whose parsed guid finds that message first. A row
/// with no reference, or whose guid matches no listed message, lands
/// nowhere and is dropped.
pub open spec fn reaction_targets(r: ReactionRowV, ms: Seq<MessageV>, i: int) -> bool {
    match r.assoc_guid {
        Some(g) => is_first_with_guid(ms, i, parent_guid_spec(g)),
        None => false,
    }
}

/// The reactions that end up on the message at position `i`, in the
/// batch's row order.
pub open spec fn reactions_for(
    ms: Seq<MessageV>,
    i: int,
    rows: Seq<ReactionRowV>,
    m: Map<Seq<char>, Seq<char>>,
) -> Seq<ReactionV> {
    rows.filter(|r: ReactionRowV| reaction_targets(r, ms, i)).map_values(
        |r: ReactionRowV| reaction_of_row(r, m),
    )
}


/// The message with extra attachments appended, all else unchanged.
pub open spec fn with_attachments(m: MessageV, extra: Seq<AttachmentV>) -> MessageV {
    MessageV { attachments: m.attachments + extra, ..m }
}

/// The message with extra reactions appended, all else unchanged.
pub open spec fn with_reactions(m: MessageV, extra: Seq<ReactionV>) -> MessageV {
    MessageV { reactions: m.reactions + extra, ..m }
}

/// Copy an optional string.
fn clone_opt_string(o: &Option<String>) -> (r: Option<String>)
    ensures
        r == *o,
{
    match o {
        Some(s) => Some(s.clone()),
        None => None,
    }
}

/// Append each batched attachment row to the first listed message with its
/// owning row id, in batch order; a row whose id matches no listed message
/// is dropped.
pub fn attach_attachments(msgs: &mut Vec<Message>, rows: &Vec<AttachmentRow>)
    ensures
        final(msgs)@.len() == old(msgs)@.len(),
        forall|i: int|
            0 <= i < final(msgs)@.len() ==> (#[trigger] final(msgs)@[i])@ == with_attachments(
                old(msgs)@[i]@,
                attachments_for(msgs_v(old(msgs)@), i, ars_v(rows@)),
            ),
{
    let ghost oms = msgs_v(old(msgs)@);
    let ghost ars = ars_v(rows@);
    let ghost n = oms.len();
    let mut k: usize = 0;
    proof {
        assert(forall|i: int| 0 <= i < n ==> (#[trigger] oms[i]) == old(msgs)@[i]@);
        assert forall|i: int| 0 <= i < n implies msgs@[i]@ == with_attachments(
            oms[i],
            attachments_for(oms, i, ars.take(0)),
        ) by {
            assert(ars.take(0) =~= Seq::<AttachmentRowV>::empty());
            reveal_with_fuel(Seq::filter, 2);
            assert(attachments_for(oms, i, ars.take(0)) =~= Seq::<AttachmentV>::empty());
            assert(oms[i].attachments + Seq::<AttachmentV>::empty() =~= oms[i].attachments);
        };
    }
    while k < rows.len()
        invariant
            msgs@.len() == n,
            oms.len() == n,
            oms == msgs_v(old(msgs)@),
            ars == ars_v(rows@),
            ars.len() == rows@.len(),
            k <= rows@.len(),
            forall|i: int| 0 <= i < n ==> (#[trigger] oms[i]) == old(msgs)@[i]@,
            forall|i: int|
                0 <= i < n ==> (#[trigger] msgs@[i])@ == with_attachments(
                    oms[i],
                    attachments_for(oms, i, ars.take(k as int)),
                ),
        decreases rows@.len() - k,
    {
        let ghost a = ars[k as int];
        proof {
            assert(rows@[k as int]@ == a);
        }
        let target: i64 = rows[k].message_id;
        let mut j: usize = 0;
        let mut found: bool = false;
        while j < msgs.len() && !found
            invariant
                msgs@.len() == n,
                oms.len() == n,
                j <= n,
                forall|i: int| 0 <= i < n ==> (#[trigger] oms[i]) == old(msgs)@[i]@,
                forall|i: int|
                    0 <= i < n ==> (#[trigger] msgs@[i])@ == with_attachments(
                        oms[i],
                        attachments_for(oms, i, ars.take(k as int)),
                    ),
                !found ==> forall|jj: int| 0 <= jj < j ==> (#[trigger] oms[jj]).id != target,
                found ==> j < n && is_first_with_id(oms, j as int, target),
            decreases n - j + (if found {
                0int
            } else {
                1int
            }),
        {
            if msgs[j].id == target {
                proof {
                    assert(msgs@[j as int]@.id == oms[j as int].id);
                }
                found = true;
            } else {
                proof {
                    assert(msgs@[j as int]@.id == oms[j as int].id);
                }
                j = j + 1;
            }
        }
        proof {
            let t = ars.take(k + 1 as int);
            assert(t.drop_last() =~= ars.take(k as int));
            assert(t.last() == a);
        }
        if found {
            let att = Attachment {
                filename: clone_opt_string(&rows[k].filename),
                mime_type: clone_opt_string(&rows[k].mime_type),
                transfer_name: clone_opt_string(&rows[k].transfer_name),
            };
            proof {
                assert(att@ == attachment_of_row(a));
            }
            let ghost snap = msgs@;
            let mut elem = msgs.remove(j);
            let ghost prev_atts = elem@.attachments;
            elem.attachments.push(att);
            proof {
                assert(elem@.attachments =~= prev_atts.push(att@));
            }
            msgs.insert(j, elem);
            proof {
                assert(msgs@ =~= snap.update(j as int, elem));
            }
        }
        proof {
            assert forall|i: int| 0 <= i < n implies (#[trigger] msgs@[i])@ == with_attachments(
                oms[i],
                attachments_for(oms, i, ars.take(k + 1 as int)),
            ) by {
                reveal_with_fuel(Seq::filter, 2);
                let pred = |x: AttachmentRowV| is_first_with_id(oms, i, x.message_id);
                let t = ars.take(k + 1 as int);
                assert(t.drop_last() =~= ars.take(k as int));
                assert(t.last() == a);
                if found && i == j as int {
                    assert(is_first_with_id(oms, i, a.message_id));
                    assert(t.filter(pred) == ars.take(k as int).filter(pred).push(a));
                    assert(t.filter(pred).map_values(|x: AttachmentRowV| attachment_of_row(x))
                        =~= ars.take(k as int).filter(pred).map_values(
                        |x: AttachmentRowV| attachment_of_row(x),
                    ).push(attachment_of_row(a)));
                    assert(oms[i].attachments + attachments_for(oms, i, t) =~= (oms[i].attachments
                        + attachments_for(oms, i, ars.take(k as int))).push(attachment_of_row(a)));
                } else {
                    assert(!is_first_with_id(oms, i, a.message_id)) by {
                        if found {
                            assert(is_first_with_id(oms, j as int, target));
                        }
                    }
                    assert(t.filter(pred) == ars.take(k as int).filter(pred));
                }
            };
        }
        k = k + 1;
    }
    proof {
        assert(ars.take(rows@.len() as int) =~= ars);
    }
}

/// Append each reaction row to the first listed message whose guid matches
/// the row's parsed parent reference, in batch order; a row with no parent
/// reference, or whose parsed guid matches no listed message, is dropped.
pub fn attach_reactions(msgs: &mut Vec<Message>, rows: &Vec<ReactionRow>, contacts: &ContactDirectory)
    ensures
        final(msgs)@.len() == old(msgs)@.len(),
        forall|i: int|
            0 <= i < final(msgs)@.len() ==> (#[trigger] final(msgs)@[i])@ == with_reactions(
                old(msgs)@[i]@,
                reactions_for(msgs_v(old(msgs)@), i, rrs_v(rows@), contacts@),
            ),
{
    let ghost oms = msgs_v(old(msgs)@);
    let ghost rrs = rrs_v(rows@);
    let ghost dir = contacts@;
    let ghost n = oms.len();
    let mut k: usize = 0;
    proof {
        assert(forall|i: int| 0 <= i < n ==> (#[trigger] oms[i]) == old(msgs)@[i]@);
        assert forall|i: int| 0 <= i < n implies msgs@[i]@ == with_reactions(
            oms[i],
            reactions_for(oms, i, rrs.take(0), dir),
        ) by {
            assert(rrs.take(0) =~= Seq::<ReactionRowV>::empty());
            reveal_with_fuel(Seq::filter, 2);
            assert(reactions_for(oms, i, rrs.take(0), dir) =~= Seq::<ReactionV>::empty());
            assert(oms[i].reactions + Seq::<ReactionV>::empty() =~= oms[i].reactions);
        };
    }
    while k < rows.len()
        invariant
            msgs@.len() == n,
            oms.len() == n,
            oms == msgs_v(old(msgs)@),
            rrs == rrs_v(rows@),
            rrs.len() == rows@.len(),
            dir == contacts@,
            k <= rows@.len(),
            forall|i: int| 0 <= i < n ==> (#[trigger] oms[i]) == old(msgs)@[i]@,
            forall|i: int|
                0 <= i < n ==> (#[trigger] msgs@[i])@ == with_reactions(
                    oms[i],
                    reactions_for(oms, i, rrs.take(k as int), dir),
                ),
        decreases rows@.len() - k,
    {
        let ghost rr = rrs[k as int];
        proof {
            assert(rows@[k as int]@ == rr);
        }
        let mut landed: bool = false;
        let ghost mut landing: int = 0int;
        match &rows[k].assoc_guid {
            None => {},
            Some(g) => {
                let parsed = clean_guid(g.as_str());
                proof {
                    assert(rr.assoc_guid == Some(g@));
                    assert(parsed@ == parent_guid_spec(g@));
                }
                let mut j: usize = 0;
                let mut found: bool = false;
                while j < msgs.len() && !found
                    invariant
                        msgs@.len() == n,
                        oms.len() == n,
                        j <= n,
                        forall|i: int| 0 <= i < n ==> (#[trigger] oms[i]) == old(msgs)@[i]@,
                        forall|i: int|
                            0 <= i < n ==> (#[trigger] msgs@[i])@ == with_reactions(
                                oms[i],
                                reactions_for(oms, i, rrs.take(k as int), dir),
                            ),
                        !found ==> forall|jj: int| 0 <= jj < j ==> (#[trigger] oms[jj]).guid
                            != parsed@,
                        found ==> j < n && is_first_with_guid(oms, j as int, parsed@),
                    decreases n - j + (if found {
                        0int
                    } else {
                        1int
                    }),
                {
                    if msgs[j].guid == parsed {
                        proof {
                            assert(msgs@[j as int]@.guid == oms[j as int].guid);
                        }
                        found = true;
                    } else {
                        proof {
                            assert(msgs@[j as int]@.guid == oms[j as int].guid);
                        }
                        j = j + 1;
                    }
                }
                if found {
                    let sender: String = if rows[k].is_from_me {
                        "Me".to_owned()
                    } else {
                        match lookup_contact_name(rows[k].sender_id.as_str(), contacts) {
                            Some(nm) => nm,
                            None => rows[k].sender_id.clone(),
                        }
                    };
                    let reaction = Reaction {
                        reaction_type: rows[k].reaction_type,
                        sender,
                        is_from_me: rows[k].is_from_me,
                    };
                    proof {
                        assert(reaction@ == reaction_of_row(rr, dir));
                    }
                    let ghost snap = msgs@;
                    let mut elem = msgs.remove(j);
                    let ghost prev_reacts = elem@.reactions;
                    elem.reactions.push(reaction);
                    proof {
                        assert(elem@.reactions =~= prev_reacts.push(reaction@));
                    }
                    msgs.insert(j, elem);
                    proof {
                        assert(msgs@ =~= snap.update(j as int, elem));
                    }
                    landed = true;
                    proof {
                        landing = j as int;
                    }
                }
            },
        }
        proof {
            assert forall|i: int| 0 <= i < n implies (#[trigger] msgs@[i])@ == with_reactions(
                oms[i],
                reactions_for(oms, i, rrs.take(k + 1 as int), dir),
            ) by {
                reveal_with_fuel(Seq::filter, 2);
                let pred = |x: ReactionRowV| reaction_targets(x, oms, i);
                let t = rrs.take(k + 1 as int);
                assert(t.drop_last() =~= rrs.take(k as int));
                assert(t.last() == rr);
                if landed && i == landing {
                    assert(reaction_targets(rr, oms, i));
                    assert(t.filter(pred) == rrs.take(k as int).filter(pred).push(rr));
                    assert(t.filter(pred).map_values(|x: ReactionRowV| reaction_of_row(x, dir))
                        =~= rrs.take(k as int).filter(pred).map_values(
                        |x: ReactionRowV| reaction_of_row(x, dir),
                    ).push(reaction_of_row(rr, dir)));
                    assert(oms[i].reactions + reactions_for(oms, i, t, dir) =~= (oms[i].reactions
                        + reactions_for(oms, i, rrs.take(k as int), dir)).push(
                        reaction_of_row(rr, dir),
                    ));
                } else {
                    assert(!reaction_targets(rr, oms, i)) by {
                        if landed {
                            assert(reaction_targets(rr, oms, landing));
                        }
                    }
                    assert(t.filter(pred) == rrs.take(k as int).filter(pred));
                }
            };
        }
        k = k + 1;
    }
    proof {
        assert(rrs.take(rows@.len() as int) =~= rrs);
    }
}


/// The ids whose messages are flagged as carrying an attachment: the
/// candidate set of the batched attachment lookup.
pub open spec fn candidate_ids_spec(ms: Seq<MessageV>) -> Seq<i64> {
    ms.filter(|m: MessageV| m.has_attachment).map_values(|m: MessageV| m.id)
}

/// Collect the ids of the listed messages flagged as carrying an
/// attachment, in listing order: the candidate set for the batched
/// attachment lookup. An empty result means the batch can be skipped
/// entirely.
pub fn attachment_candidates(msgs: &Vec<Message>) -> (r: Vec<i64>)
    ensures
        r@ == candidate_ids_spec(msgs_v(msgs@)),
{
    let ghost ms = msgs_v(msgs@);
    let mut out: Vec<i64> = Vec::new();
    let mut i: usize = 0;
    while i < msgs.len()
        invariant
            i <= msgs@.len(),
            ms == msgs_v(msgs@),
            ms.len() == msgs@.len(),
            out@ == candidate_ids_spec(ms.take(i as int)),
        decreases msgs@.len() - i,
    {
        proof {
            assert(ms[i as int] == msgs@[i as int]@);
        }
        if msgs[i].has_attachment {
            out.push(msgs[i].id);
        }
        proof {
            let t = ms.take(i + 1 as int);
            assert(t.drop_last() =~= ms.take(i as int));
            assert(t.last() == ms[i as int]);
            reveal_with_fuel(Seq::filter, 2);
            let pred = |m: MessageV| m.has_attachment;
            if ms[i as int].has_attachment {
                assert(t.filter(pred) == ms.take(i as int).filter(pred).push(ms[i as int]));
                assert(t.filter(pred).map_values(|m: MessageV| m.id) =~= ms.take(
                    i as int,
                ).filter(pred).map_values(|m: MessageV| m.id).push(ms[i as int].id));
            } else {
                assert(t.filter(pred) == ms.take(i as int).filter(pred));
            }
            assert(out@ == candidate_ids_spec(t));
        }
        i = i + 1;
    }
    proof {
        assert(ms.take(msgs@.len() as int) =~= ms);
    }
    out
}

/// The fully assembled listing: raw rows filtered, ordered newest first
/// and capped, each assembled into a message, then the attachment batch
/// and the reaction batch attached to their owning messages.
pub open spec fn assembled_messages_spec(
    rows: Seq<MessageRowV>,
    ars: Seq<AttachmentRowV>,
    rrs: Seq<ReactionRowV>,
    m: Map<Seq<char>, Seq<char>>,
    o: ExportOptionsV,
    limit: Option<i64>,
) -> Seq<MessageV> {
    let base = selected_rows_spec(rows, o, limit).map_values(
        |x: MessageRowV| message_of_row(x, m),
    );
    let with_atts = Seq::new(
        base.len(),
        |i: int| with_attachments(base[i], attachments_for(base, i, ars)),
    );
    Seq::new(
        with_atts.len(),
        |i: int| with_reactions(with_atts[i], reactions_for(with_atts, i, rrs, m)),
    )
}

/// Assemble the full message listing for one request: filter, order and
/// cap the raw rows, resolve each sender, then attach the attachment and
/// reaction batches.
pub fn get_messages(
    rows: Vec<MessageRow>,
    attachment_rows: &Vec<AttachmentRow>,
    reaction_rows: &Vec<ReactionRow>,
    contacts: &ContactDirectory,
    options: &Option<ExportOptions>,
    limit: Option<i64>,
) -> (r: Vec<Message>)
    requires
        options_in_range(options_view(*options)),
    ensures
        msgs_v(r@) == assembled_messages_spec(
            rows_v(rows@),
            ars_v(attachment_rows@),
            rrs_v(reaction_rows@),
            contacts@,
            options_view(*options),
            limit,
        ),
{
    let ghost o = options_view(*options);
    let ghost origv = rows_v(rows@);
    let ghost pred = |x: MessageRowV| row_passes(x, o);
    let filtered = filter_rows(rows, options);
    let ghost fv = rows_v(filtered@);
    let deduped = dedup_rows(filtered);
    let ghost dv = rows_v(deduped@);
    let sorted = sort_rows_desc(deduped);
    let ghost sv = rows_v(sorted@);
    let capped = cap_rows(sorted, limit);
    let ghost cv = rows_v(capped@);
    proof {
        broadcast use vstd::seq_lib::group_filter_ensures;

        assert(fv == origv.filter(pred));
        assert(dv == first_linkage_only(fv));
        lemma_first_linkage_contents(fv);
        lemma_sort_desc_properties(dv);
        assert(sv == sort_desc(dv));
        assert(cv == cap_rows_spec(sv, limit));
        assert(cv == selected_rows_spec(origv, o, limit));
        assert forall|i: int| 0 <= i < capped@.len() implies (#[trigger] capped@[i]@).date
            >= 0 by {
            assert(capped@[i]@ == cv[i]);
            assert(cv[i] == sv[i]);
            assert(dv.contains(sv[i]));
            let kk = choose|kk: int| 0 <= kk < dv.len() && dv[kk] == sv[i];
            assert(fv.contains(dv[kk]));
            let jj = choose|jj: int| 0 <= jj < fv.len() && fv[jj] == sv[i];
            assert(origv.filter(pred)[jj] == fv[jj]);
            assert(pred(fv[jj]));
            assert(row_passes(cv[i], o));
        };
    }
    let ghost dir = contacts@;
    let mut msgs = build_messages(capped, contacts);
    let ghost base = cv.map_values(|x: MessageRowV| message_of_row(x, dir));
    proof {
        assert(msgs_v(msgs@) == base);
        assert(base.len() == cv.len());
    }
    let ghost ars = ars_v(attachment_rows@);
    attach_attachments(&mut msgs, attachment_rows);
    let ghost with_atts = Seq::new(
        base.len(),
        |i: int| with_attachments(base[i], attachments_for(base, i, ars)),
    );
    proof {
        assert(msgs_v(msgs@).len() == msgs@.len());
        assert forall|i: int| 0 <= i < msgs@.len() implies msgs_v(msgs@)[i] == with_atts[i] by {
            assert(msgs_v(msgs@)[i] == msgs@[i]@);
        };
        assert(msgs_v(msgs@) =~= with_atts);
    }
    let ghost rrs = rrs_v(reaction_rows@);
    attach_reactions(&mut msgs, reaction_rows, contacts);
    let ghost final_v = Seq::new(
        with_atts.len(),
        |i: int| with_reactions(with_atts[i], reactions_for(with_atts, i, rrs, dir)),
    );
    proof {
        assert(msgs_v(msgs@).len() == msgs@.len());
        assert forall|i: int| 0 <= i < msgs@.len() implies msgs_v(msgs@)[i] == final_v[i] by {
            assert(msgs_v(msgs@)[i] == msgs@[i]@);
        };
        assert(msgs_v(msgs@) =~= final_v);
        assert(final_v =~= assembled_messages_spec(origv, ars, rrs, dir, o, limit));
    }
    msgs
}

/// Assemble the message listing restricted to one contact: the same
/// request with the contact filter pinned to that single handle id and no
/// row cap.
pub fn get_messages_for_contact(
    contact_id: i64,
    rows: Vec<MessageRow>,
    attachment_rows: &Vec<AttachmentRow>,
    reaction_rows: &Vec<ReactionRow>,
    contacts: &ContactDirectory,
    options: Option<ExportOptions>,
) -> (r: Vec<Message>)
    requires
        options_in_range(options_view(options)),
    ensures
        msgs_v(r@) == assembled_messages_spec(
            rows_v(rows@),
            ars_v(attachment_rows@),
            rrs_v(reaction_rows@),
            contacts@,
            (ExportOptionsV { contact_ids: Some(seq![contact_id]), ..options_view(options) }),
            None,
        ),
{
    let ghost want = ExportOptionsV { contact_ids: Some(seq![contact_id]), ..options_view(
        options,
    ) };
    let (sd, ed): (Option<i64>, Option<i64>) = match &options {
        Some(op) => (op.start_date, op.end_date),
        None => (None, None),
    };
    let mut ids: Vec<i64> = Vec::new();
    ids.push(contact_id);
    proof {
        assert(ids@ =~= seq![contact_id]);
    }
    let wrapped: Option<ExportOptions> = Some(
        ExportOptions { start_date: sd, end_date: ed, contact_ids: Some(ids) },
    );
    proof {
        assert(options_view(wrapped) == want);
    }
    get_messages(rows, attachment_rows, reaction_rows, contacts, &wrapped, None)
}

/// A date-bounded listing never holds a message whose timestamp falls
/// outside the requested range: every listed row passed the whole filter,
/// and its portable timestamp lies between the requested bounds.
pub proof fn lemma_listing_respects_bounds(
    rows: Seq<MessageRowV>,
    o: ExportOptionsV,
    limit: Option<i64>,
    k: int,
)
    requires
        0 <= k < selected_rows_spec(rows, o, limit).len(),
    ensures
        row_passes(selected_rows_spec(rows, o, limit)[k], o),
        (o.start_date matches Some(s) ==> s <= mac_to_unix_spec(
            selected_rows_spec(rows, o, limit)[k].date as int,
        )),
        (o.end_date matches Some(e) ==> mac_to_unix_spec(
            selected_rows_spec(rows, o, limit)[k].date as int,
        ) <= e),
{
    broadcast use vstd::seq_lib::group_filter_ensures;

    let pred = |r: MessageRowV| row_passes(r, o);
    let fv = rows.filter(pred);
    let dv = first_linkage_only(fv);
    lemma_first_linkage_contents(fv);
    lemma_sort_desc_properties(dv);
    let sv = sort_desc(dv);
    let sel = cap_rows_spec(sv, limit);
    assert(sel[k] == sv[k]);
    assert(dv.contains(sv[k]));
    let kk = choose|kk: int| 0 <= kk < dv.len() && dv[kk] == sv[k];
    assert(fv.contains(dv[kk]));
    let jj = choose|jj: int| 0 <= jj < fv.len() && fv[jj] == sv[k];
    assert(rows.filter(pred)[jj] == fv[jj]);
    assert(pred(fv[jj]));
    let r = sel[k];
    assert(row_passes(r, o));
    let n = NANOS_PER_SECOND as int;
    match o.start_date {
        Some(s) => {
            assert(r.date >= unix_to_mac_spec(s as int));
            vstd::arithmetic::div_mod::lemma_div_is_ordered(
                unix_to_mac_spec(s as int),
                r.date as int,
                n,
            );
            vstd::arithmetic::div_mod::lemma_div_multiples_vanish(s - MAC_EPOCH_OFFSET as int, n);
            assert(unix_to_mac_spec(s as int) / n == s - MAC_EPOCH_OFFSET as int);
        },
        None => {},
    }
    match o.end_date {
        Some(e) => {
            assert(r.date <= unix_to_mac_spec(e as int));
            vstd::arithmetic::div_mod::lemma_div_is_ordered(
                r.date as int,
                unix_to_mac_spec(e as int),
                n,
            );
            vstd::arithmetic::div_mod::lemma_div_multiples_vanish(e - MAC_EPOCH_OFFSET as int, n);
            assert(unix_to_mac_spec(e as int) / n == e - MAC_EPOCH_OFFSET as int);
        },
        None => {},
    }
}

/// With no bounds, no contact filter and no cap, the listing holds exactly
/// the ordinary rows — every message that is not a reaction or edit
/// pseudo-message and has a positive timestamp, each store message once
/// with its first chat linkage — ordered newest first.
pub proof fn lemma_unbounded_listing_complete(rows: Seq<MessageRowV>)
    ensures
        ({
            let o = ExportOptionsV { start_date: None, end_date: None, contact_ids: None };
            let sel = selected_rows_spec(rows, o, None);
            &&& sel.to_multiset() == first_linkage_only(
                rows.filter(|r: MessageRowV| row_passes(r, o)),
            ).to_multiset()
            &&& sorted_desc(sel)
            &&& forall|r: MessageRowV| #[trigger] row_passes(r, o) <==> (r.date > 0 && (
            r.assoc_type matches Some(t) ==> t == 0))
        }),
{
    let o = ExportOptionsV { start_date: None, end_date: None, contact_ids: None };
    let pred = |r: MessageRowV| row_passes(r, o);
    lemma_sort_desc_properties(first_linkage_only(rows.filter(pred)));
}

/// A listing never holds the same store message twice: of a message's
/// several chat linkages only the first survives selection, so every two
/// listed positions carry different message row ids.
pub proof fn lemma_listing_ids_unique(
    rows: Seq<MessageRowV>,
    o: ExportOptionsV,
    limit: Option<i64>,
    a: int,
    b: int,
)
    requires
        0 <= a < b < selected_rows_spec(rows, o, limit).len(),
    ensures
        selected_rows_spec(rows, o, limit)[a].id != selected_rows_spec(rows, o, limit)[b].id,
{
    let pred = |r: MessageRowV| row_passes(r, o);
    let fv = rows.filter(pred);
    let dv = first_linkage_only(fv);
    lemma_first_linkage_contents(fv);
    lemma_sort_desc_distinct_ids(dv);
    lemma_sort_desc_properties(dv);
    let sv = sort_desc(dv);
    let sel = cap_rows_spec(sv, limit);
    assert(sel[a] == sv[a]);
    assert(sel[b] == sv[b]);
}

/// An empty attachment batch attaches nothing: a message's attachment list
/// is unchanged by it.
pub proof fn lemma_empty_batch_attaches_nothing(ms: Seq<MessageV>, i: int)
    requires
        0 <= i < ms.len(),
    ensures
        attachments_for(ms, i, Seq::<AttachmentRowV>::empty()) == Seq::<AttachmentV>::empty(),
        with_attachments(ms[i], attachments_for(ms, i, Seq::<AttachmentRowV>::empty())) == ms[i],
{
    reveal_with_fuel(Seq::filter, 2);
    assert(attachments_for(ms, i, Seq::<AttachmentRowV>::empty()) =~= Seq::<AttachmentV>::empty());
    assert(ms[i].attachments + Seq::<AttachmentV>::empty() =~= ms[i].attachments);
}

} // verus!
