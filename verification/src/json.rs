//! Textual reporting surfaces: newline-terminated JSON for the protocol
//! layer, with the exact character sequence of every report specified.

use vstd::prelude::*;
use vstd::string::StringExecFns;

use crate::registry::HistPoint;
use crate::registry::SharedState;
use crate::registry::StoreEntry;
use crate::registry::total_count;
use crate::tick::Update;

verus! {

/// The character of one decimal digit.
pub open spec fn digit_char(d: nat) -> char {
    if d == 0 {
        '0'
    } else if d == 1 {
        '1'
    } else if d == 2 {
        '2'
    } else if d == 3 {
        '3'
    } else if d == 4 {
        '4'
    } else if d == 5 {
        '5'
    } else if d == 6 {
        '6'
    } else if d == 7 {
        '7'
    } else if d == 8 {
        '8'
    } else {
        '9'
    }
}

/// Decimal rendering of a number, most significant digit first, no sign and
/// no leading zero (except for zero itself).
pub open spec fn dec_str(n: nat) -> Seq<char>
    decreases n,
{
    if n < 10 {
        seq![digit_char(n)]
    } else {
        dec_str(n / 10).push(digit_char(n % 10))
    }
}

/// `true` or `false`.
pub open spec fn bool_str(b: bool) -> Seq<char> {
    if b {
        "true"@
    } else {
        "false"@
    }
}

fn digit_literal(d: u64) -> (s: &'static str)
    requires
        d < 10,
    ensures
        s@ == seq![digit_char(d as nat)],
{
    let r: &'static str = if d == 0 {
        "0"
    } else if d == 1 {
        "1"
    } else if d == 2 {
        "2"
    } else if d == 3 {
        "3"
    } else if d == 4 {
        "4"
    } else if d == 5 {
        "5"
    } else if d == 6 {
        "6"
    } else if d == 7 {
        "7"
    } else if d == 8 {
        "8"
    } else {
        "9"
    };
    proof {
        reveal_strlit("0");
        reveal_strlit("1");
        reveal_strlit("2");
        reveal_strlit("3");
        reveal_strlit("4");
        reveal_strlit("5");
        reveal_strlit("6");
        reveal_strlit("7");
        reveal_strlit("8");
        reveal_strlit("9");
        assert(r@ =~= seq![digit_char(d as nat)]);
    }
    r
}

/// Append the decimal rendering of `n`.
pub fn push_u64(out: &mut String, n: u64)
    ensures
        final(out)@ == old(out)@ + dec_str(n as nat),
    decreases n,
{
    if n >= 10 {
        push_u64(out, n / 10);
        let d = digit_literal(n % 10);
        out.append(d);
        proof {
            assert(out@ =~= old(out)@ + dec_str(n as nat));
        }
    } else {
        let d = digit_literal(n);
        out.append(d);
        proof {
            assert(out@ =~= old(out)@ + dec_str(n as nat));
        }
    }
}

/// Append `true` or `false`.
pub fn push_bool(out: &mut String, b: bool)
    ensures
        final(out)@ == old(out)@ + bool_str(b),
{
    if b {
        out.append("true");
    } else {
        out.append("false");
    }
}

/// One store's object in the `dbs` list of the `info` report.
pub open spec fn store_obj_json(name: Seq<char>, in_memory: bool, count: nat) -> Seq<char> {
    "{\n    \"name\": \""@ + name + "\",\n    \"in_memory\": "@ + bool_str(in_memory)
        + ",\n    \"count\": "@ + dec_str(count) + "\n  }"@
}

/// The `dbs` list body: one object per registry entry, in registry order,
/// reporting the name, whether the buffer is materialized (non-empty), and
/// the logical count.
pub open spec fn dbs_json(s: Seq<(String, StoreEntry)>) -> Seq<char>
    decreases s.len(),
{
    if s.len() == 0 {
        Seq::empty()
    } else if s.len() == 1 {
        store_obj_json(s[0].0@, s[0].1.buffer@.len() != 0, s[0].1.logical_count as nat)
    } else {
        dbs_json(s.drop_last()) + ", "@ + store_obj_json(
            s.last().0@,
            s.last().1.buffer@.len() != 0,
            s.last().1.logical_count as nat,
        )
    }
}

/// The `meta` object of the `info` report.
pub open spec fn meta_json(s: SharedState, now: u64) -> Seq<char> {
    "{\n    \"cxns\": "@ + dec_str(s.n_cxns as nat) + ",\n    \"max_threads\": "@ + dec_str(
        s.settings.threads as nat,
    ) + ",\n    \"ts\": "@ + dec_str(now as nat) + ",\n    \"autoflush_enabled\": "@ + bool_str(
        s.settings.autoflush,
    ) + ",\n    \"autoflush_interval\": "@ + dec_str(s.settings.flush_interval as nat)
        + ",\n    \"dtf_folder\": \""@ + s.settings.dtf_folder@ + "\",\n    \"total_count\": "@
        + dec_str(total_count(s.vec_store@) as nat) + "\n  }"@
}

/// The whole `info` report: meta object, then the `dbs` list, newline
/// terminated.
pub open spec fn info_json(s: SharedState, now: u64) -> Seq<char> {
    "{\n  \"meta\": "@ + meta_json(s, now) + ",\n  \"dbs\": ["@ + dbs_json(s.vec_store@)
        + "]\n}\n"@
}

fn store_obj_string(name: &String, in_memory: bool, count: u64) -> (r: String)
    ensures
        r@ == store_obj_json(name@, in_memory, count as nat),
{
    let mut out = String::new();
    out.append("{\n    \"name\": \"");
    out.append(name.as_str());
    out.append("\",\n    \"in_memory\": ");
    push_bool(&mut out, in_memory);
    out.append(",\n    \"count\": ");
    push_u64(&mut out, count);
    out.append("\n  }");
    proof {
        assert(out@ =~= store_obj_json(name@, in_memory, count as nat));
    }
    out
}

/// Build the `info` report from a single consistent snapshot of the shared
/// state; `now` is the clock reading and `total` the registry-wide count.
pub fn info_string(shared: &SharedState, now: u64, total: u64) -> (r: String)
    requires
        total == total_count(shared.vec_store@),
    ensures
        r@ == info_json(*shared, now),
{
    let mut out = String::new();
    out.append("{\n  \"meta\": ");
    out.append("{\n    \"cxns\": ");
    push_u64(&mut out, shared.n_cxns as u64);
    out.append(",\n    \"max_threads\": ");
    push_u64(&mut out, shared.settings.threads);
    out.append(",\n    \"ts\": ");
    push_u64(&mut out, now);
    out.append(",\n    \"autoflush_enabled\": ");
    push_bool(&mut out, shared.settings.autoflush);
    out.append(",\n    \"autoflush_interval\": ");
    push_u64(&mut out, shared.settings.flush_interval as u64);
    out.append(",\n    \"dtf_folder\": \"");
    out.append(shared.settings.dtf_folder.as_str());
    out.append("\",\n    \"total_count\": ");
    push_u64(&mut out, total);
    out.append("\n  }");
    proof {
        assert(out@ =~= "{\n  \"meta\": "@ + meta_json(*shared, now));
    }
    out.append(",\n  \"dbs\": [");
    let mut i: usize = 0;
    while i < shared.vec_store.len()
        invariant
            i <= shared.vec_store@.len(),
            out@ == "{\n  \"meta\": "@ + meta_json(*shared, now) + ",\n  \"dbs\": ["@ + dbs_json(
                shared.vec_store@.take(i as int),
            ),
        decreases shared.vec_store@.len() - i,
    {
        if i > 0 {
            out.append(", ");
        }
        let row = store_obj_string(
            &shared.vec_store[i].0,
            !shared.vec_store[i].1.buffer.is_empty(),
            shared.vec_store[i].1.logical_count,
        );
        out.append(row.as_str());
        proof {
            assert(shared.vec_store@.take(i + 1).drop_last() =~= shared.vec_store@.take(i as int));
            assert(shared.vec_store@.take(i + 1).last() == shared.vec_store@[i as int]);
            assert(out@ =~= "{\n  \"meta\": "@ + meta_json(*shared, now) + ",\n  \"dbs\": ["@
                + dbs_json(shared.vec_store@.take(i + 1)));
        }
        i = i + 1;
    }
    proof {
        assert(shared.vec_store@.take(shared.vec_store@.len() as int) =~= shared.vec_store@);
    }
    out.append("]\n}\n");
    proof {
        assert(out@ =~= info_json(*shared, now));
    }
    out
}

/// One sample inside a store's `perf` object.
pub open spec fn hist_point_json(p: HistPoint) -> Seq<char> {
    "\""@ + dec_str(p.ts as nat) + "\":"@ + dec_str(p.size as nat)
}

/// A store's samples, oldest first.
pub open spec fn hist_list_json(ps: Seq<HistPoint>) -> Seq<char>
    decreases ps.len(),
{
    if ps.len() == 0 {
        Seq::empty()
    } else if ps.len() == 1 {
        hist_point_json(ps[0])
    } else {
        hist_list_json(ps.drop_last()) + ", "@ + hist_point_json(ps.last())
    }
}

/// One store's object in the `perf` report.
pub open spec fn hist_obj_json(name: Seq<char>, ps: Seq<HistPoint>) -> Seq<char> {
    "{\""@ + name + "\": {"@ + hist_list_json(ps) + "}}"@
}

/// The `perf` rows, one per store with history, in history order.
pub open spec fn hist_rows_json(h: Seq<(String, Vec<HistPoint>)>) -> Seq<char>
    decreases h.len(),
{
    if h.len() == 0 {
        Seq::empty()
    } else if h.len() == 1 {
        hist_obj_json(h[0].0@, h[0].1@)
    } else {
        hist_rows_json(h.drop_last()) + ", "@ + hist_obj_json(h.last().0@, h.last().1@)
    }
}

/// The whole `perf` report: the rolling size samples of every store, as a
/// newline-terminated JSON list.
pub open spec fn perf_json(h: Seq<(String, Vec<HistPoint>)>) -> Seq<char> {
    "["@ + hist_rows_json(h) + "]\n"@
}

fn hist_obj_string(name: &String, ps: &Vec<HistPoint>) -> (r: String)
    ensures
        r@ == hist_obj_json(name@, ps@),
{
    let mut out = String::new();
    out.append("{\"");
    out.append(name.as_str());
    out.append("\": {");
    let mut i: usize = 0;
    while i < ps.len()
        invariant
            i <= ps@.len(),
            out@ == "{\""@ + name@ + "\": {"@ + hist_list_json(ps@.take(i as int)),
        decreases ps@.len() - i,
    {
        if i > 0 {
            out.append(", ");
        }
        out.append("\"");
        push_u64(&mut out, ps[i].ts);
        out.append("\":");
        push_u64(&mut out, ps[i].size);
        proof {
            assert(ps@.take(i + 1).drop_last() =~= ps@.take(i as int));
            assert(ps@.take(i + 1).last() == ps@[i as int]);
            assert(out@ =~= "{\""@ + name@ + "\": {"@ + hist_list_json(ps@.take(i + 1)));
        }
        i = i + 1;
    }
    proof {
        assert(ps@.take(ps@.len() as int) =~= ps@);
    }
    out.append("}}");
    proof {
        assert(out@ =~= hist_obj_json(name@, ps@));
    }
    out
}

/// Build the `perf` report from a single consistent snapshot.
pub fn perf_string(shared: &SharedState) -> (r: String)
    ensures
        r@ == perf_json(shared.history@),
{
    let mut out = String::new();
    out.append("[");
    let mut i: usize = 0;
    while i < shared.history.len()
        invariant
            i <= shared.history@.len(),
            out@ == "["@ + hist_rows_json(shared.history@.take(i as int)),
        decreases shared.history@.len() - i,
    {
        if i > 0 {
            out.append(", ");
        }
        let row = hist_obj_string(&shared.history[i].0, &shared.history[i].1);
        out.append(row.as_str());
        proof {
            assert(shared.history@.take(i + 1).drop_last() =~= shared.history@.take(i as int));
            assert(shared.history@.take(i + 1).last() == shared.history@[i as int]);
            assert(out@ =~= "["@ + hist_rows_json(shared.history@.take(i + 1)));
        }
        i = i + 1;
    }
    proof {
        assert(shared.history@.take(shared.history@.len() as int) =~= shared.history@);
    }
    out.append("]\n");
    proof {
        assert(out@ =~= perf_json(shared.history@));
    }
    out
}

/// One record as a JSON object.
pub open spec fn update_json(u: Update) -> Seq<char> {
    "{\"ts\":"@ + dec_str(u.ts as nat) + ",\"seq\":"@ + dec_str(u.seq as nat) + ",\"is_trade\":"@
        + bool_str(u.is_trade) + ",\"is_bid\":"@ + bool_str(u.is_bid) + ",\"price_bits\":"@
        + dec_str(u.price_bits as nat) + ",\"size_bits\":"@ + dec_str(u.size_bits as nat) + "}"@
}

/// A run of records as a JSON array body, in order, comma separated.
pub open spec fn update_list_json(ups: Seq<Update>) -> Seq<char>
    decreases ups.len(),
{
    if ups.len() == 0 {
        Seq::empty()
    } else if ups.len() == 1 {
        update_json(ups[0])
    } else {
        update_list_json(ups.drop_last()) + ", "@ + update_json(ups.last())
    }
}

fn update_string(u: Update) -> (r: String)
    ensures
        r@ == update_json(u),
{
    let mut out = String::new();
    out.append("{\"ts\":");
    push_u64(&mut out, u.ts);
    out.append(",\"seq\":");
    push_u64(&mut out, u.seq as u64);
    out.append(",\"is_trade\":");
    push_bool(&mut out, u.is_trade);
    out.append(",\"is_bid\":");
    push_bool(&mut out, u.is_bid);
    out.append(",\"price_bits\":");
    push_u64(&mut out, u.price_bits as u64);
    out.append(",\"size_bits\":");
    push_u64(&mut out, u.size_bits as u64);
    out.append("}");
    proof {
        assert(out@ =~= update_json(u));
    }
    out
}

/// Render a run of records as the body of a JSON array.
pub fn update_vec_to_json(ups: &Vec<Update>) -> (r: String)
    ensures
        r@ == update_list_json(ups@),
{
    let mut out = String::new();
    let mut i: usize = 0;
    while i < ups.len()
        invariant
            i <= ups@.len(),
            out@ == update_list_json(ups@.take(i as int)),
        decreases ups@.len() - i,
    {
        if i > 0 {
            out.append(", ");
        }
        let row = update_string(ups[i]);
        out.append(row.as_str());
        proof {
            assert(ups@.take(i + 1).drop_last() =~= ups@.take(i as int));
            assert(ups@.take(i + 1).last() == ups@[i as int]);
            assert(out@ =~= update_list_json(ups@.take(i + 1)));
        }
        i = i + 1;
    }
    proof {
        assert(ups@.take(ups@.len() as int) =~= ups@);
    }
    out
}

} // verus!
