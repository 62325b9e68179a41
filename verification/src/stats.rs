use vstd::prelude::*;

use crate::assemble::{options_in_range, options_view};
use crate::timestamp::{mac_timestamp_to_unix, mac_to_unix_spec, unix_to_mac_spec,
    unix_to_mac_timestamp};
use crate::types::{ChatStats, ExportOptions, ExportOptionsV, StatRow};

verus! {

/// Whether a message row falls inside the optional date range of a
/// statistics request. The range is the only filter statistics apply:
/// reaction and edit pseudo-messages count like any other row, as the
/// store counts them.
pub open spec fn stat_in_range(r: StatRow, o: ExportOptionsV) -> bool {
    &&& (o.start_date matches Some(s) ==> r.date >= unix_to_mac_spec(s as int))
    &&& (o.end_date matches Some(e) ==> r.date <= unix_to_mac_spec(e as int))
}

/// How many rows fall inside the date range.
pub open spec fn count_total(rows: Seq<StatRow>, o: ExportOptionsV) -> int
    decreases rows.len(),
{
    if rows.len() == 0 {
        0
    } else {
        count_total(rows.drop_last(), o) + if stat_in_range(rows.last(), o) {
            1int
        } else {
            0int
        }
    }
}

/// How many rows inside the date range are self-sent.
pub open spec fn count_sent(rows: Seq<StatRow>, o: ExportOptionsV) -> int
    decreases rows.len(),
{
    if rows.len() == 0 {
        0
    } else {
        count_sent(rows.drop_last(), o) + if stat_in_range(rows.last(), o)
            && rows.last().is_from_me {
            1int
        } else {
            0int
        }
    }
}

/// The earliest positive store-native timestamp among the rows that fall
/// inside the requested date range.
pub open spec fn min_mac(rows: Seq<StatRow>, o: ExportOptionsV) -> Option<int>
    decreases rows.len(),
{
    if rows.len() == 0 {
        None
    } else {
        let rest = min_mac(rows.drop_last(), o);
        if rows.last().date > 0 && stat_in_range(rows.last(), o) {
            match rest {
                None => Some(rows.last().date as int),
                Some(v) => Some(
                    if rows.last().date < v {
                        rows.last().date as int
                    } else {
                        v
                    },
                ),
            }
        } else {
            rest
        }
    }
}

/// The latest positive store-native timestamp among the rows that fall
/// inside the requested date range.
pub open spec fn max_mac(rows: Seq<StatRow>, o: ExportOptionsV) -> Option<int>
    decreases rows.len(),
{
    if rows.len() == 0 {
        None
    } else {
        let rest = max_mac(rows.drop_last(), o);
        if rows.last().date > 0 && stat_in_range(rows.last(), o) {
            match rest {
                None => Some(rows.last().date as int),
                Some(v) => Some(
                    if rows.last().date > v {
                        rows.last().date as int
                    } else {
                        v
                    },
                ),
            }
        } else {
            rest
        }
    }
}

/// The extremes of the in-range timestamps come as a pair: both present,
/// ordered earliest first, as soon as any row falls inside the range.
pub proof fn lemma_date_range_ordered(rows: Seq<StatRow>, o: ExportOptionsV)
    ensures
        (match (min_mac(rows, o), max_mac(rows, o)) {
            (Some(a), Some(b)) => a <= b,
            (None, None) => true,
            _ => false,
        }),
    decreases rows.len(),
{
    if rows.len() > 0 {
        lemma_date_range_ordered(rows.drop_last(), o);
    }
}

/// Compute the aggregate statistics of a store snapshot under an optional
/// date filter: total and self-sent counts inside the range, received as
/// their difference, the handle count passed through, and the date range
/// of the same in-range messages in portable Unix seconds.
pub fn get_chat_stats(rows: &Vec<StatRow>, total_contacts: i64, options: &Option<ExportOptions>)
    -> (r: ChatStats)
    requires
        options_in_range(options_view(*options)),
        rows@.len() <= 0x7fff_ffff_ffff_ffff,
    ensures
        r.total_messages == count_total(rows@, options_view(*options)),
        r.messages_sent == count_sent(rows@, options_view(*options)),
        r.messages_received == r.total_messages - r.messages_sent,
        r.total_contacts == total_contacts,
        r.date_range_start == (match min_mac(rows@, options_view(*options)) {
            Some(d) => Some(mac_to_unix_spec(d) as i64),
            None => None::<i64>,
        }),
        r.date_range_end == (match max_mac(rows@, options_view(*options)) {
            Some(d) => Some(mac_to_unix_spec(d) as i64),
            None => None::<i64>,
        }),
{
    let ghost o = options_view(*options);
    let start_mac: Option<i64> = match options {
        Some(op) => match op.start_date {
            Some(s) => Some(unix_to_mac_timestamp(s)),
            None => None,
        },
        None => None,
    };
    let end_mac: Option<i64> = match options {
        Some(op) => match op.end_date {
            Some(e) => Some(unix_to_mac_timestamp(e)),
            None => None,
        },
        None => None,
    };
    let ghost sm: Option<int> = match o.start_date {
        Some(s) => Some(unix_to_mac_spec(s as int)),
        None => None,
    };
    let ghost em: Option<int> = match o.end_date {
        Some(e) => Some(unix_to_mac_spec(e as int)),
        None => None,
    };
    proof {
        assert(match (start_mac, sm) {
            (Some(m), Some(g)) => m == g,
            (None, None) => true,
            _ => false,
        });
        assert(match (end_mac, em) {
            (Some(m), Some(g)) => m == g,
            (None, None) => true,
            _ => false,
        });
    }
    let mut total: i64 = 0;
    let mut sent: i64 = 0;
    let mut min_v: Option<i64> = None;
    let mut max_v: Option<i64> = None;
    let mut i: usize = 0;
    while i < rows.len()
        invariant
            i <= rows@.len(),
            rows@.len() <= 0x7fff_ffff_ffff_ffff,
            o == options_view(*options),
            sm == (match o.start_date {
                Some(s) => Some(unix_to_mac_spec(s as int)),
                None => None::<int>,
            }),
            em == (match o.end_date {
                Some(e) => Some(unix_to_mac_spec(e as int)),
                None => None::<int>,
            }),
            (match (start_mac, sm) {
                (Some(m), Some(g)) => m == g,
                (None, None) => true,
                _ => false,
            }),
            (match (end_mac, em) {
                (Some(m), Some(g)) => m == g,
                (None, None) => true,
                _ => false,
            }),
            0 <= total <= i,
            0 <= sent <= total,
            total == count_total(rows@.take(i as int), o),
            sent == count_sent(rows@.take(i as int), o),
            min_v == (match min_mac(rows@.take(i as int), o) {
                Some(d) => Some(d as i64),
                None => None::<i64>,
            }),
            max_v == (match max_mac(rows@.take(i as int), o) {
                Some(d) => Some(d as i64),
                None => None::<i64>,
            }),
            (min_v matches Some(v) ==> v > 0),
            (max_v matches Some(v) ==> v > 0),
            (min_mac(rows@.take(i as int), o) matches Some(d) ==> 0 < d
                <= 0x7fff_ffff_ffff_ffff),
            (max_mac(rows@.take(i as int), o) matches Some(d) ==> 0 < d
                <= 0x7fff_ffff_ffff_ffff),
        decreases rows@.len() - i,
    {
        let row = rows[i];
        proof {
            let t = rows@.take(i + 1 as int);
            assert(t.drop_last() =~= rows@.take(i as int));
            assert(t.last() == rows@[i as int]);
        }
        let mut inside: bool = true;
        match start_mac {
            Some(m) => if row.date < m {
                inside = false;
            },
            None => {},
        }
        match end_mac {
            Some(m) => if row.date > m {
                inside = false;
            },
            None => {},
        }
        proof {
            assert(inside == stat_in_range(rows@[i as int], o));
        }
        if inside {
            total = total + 1;
            if row.is_from_me {
                sent = sent + 1;
            }
        }
        if inside && row.date > 0 {
            min_v = match min_v {
                None => Some(row.date),
                Some(v) => if row.date < v {
                    Some(row.date)
                } else {
                    Some(v)
                },
            };
            max_v = match max_v {
                None => Some(row.date),
                Some(v) => if row.date > v {
                    Some(row.date)
                } else {
                    Some(v)
                },
            };
        }
        i = i + 1;
    }
    proof {
        assert(rows@.take(rows@.len() as int) =~= rows@);
    }
    let date_range_start: Option<i64> = match min_v {
        Some(d) => Some(mac_timestamp_to_unix(d)),
        None => None,
    };
    let date_range_end: Option<i64> = match max_v {
        Some(d) => Some(mac_timestamp_to_unix(d)),
        None => None,
    };
    ChatStats {
        total_messages: total,
        messages_sent: sent,
        messages_received: total - sent,
        total_contacts,
        date_range_start,
        date_range_end,
    }
}

} // verus!
