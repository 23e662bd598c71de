//! What the reader gives back of a file the generator wrote.
use vstd::prelude::*;
use crate::text::trim_ws;
use crate::midi::{be16, be32, bit_count, initial_scan, is_mthd, is_mtrk, key_text, signed_byte, spec_parse_midi, time_sig_text, track_end_of, tracks_loop, MidiSummarySpec, channel_message, clamp_tp, event_step, meta_event, min_int, spec_read_var_len, track_loop, vlq_push, vlq_scan, ScanState};
use crate::midi_gen::{entries_of, file_header, key_meta, key_sig_ok, name_meta, off_tick, spec_build_midi_file, spec_key_sig_sf, tempo_meta, tempo_us_of, time_meta, track_body, track_chunk, track_head, track_writable, u32_be, MidiGenConfig, NoteEvent, deltas_fit, entry_bytes, entry_delta, entry_stream, prev_tick, entry_le, insert_entry, insert_pos, lemma_insert_pos_range, lemma_sort_len, min127, sort_entries, vlq_bytes, vlq_high, OnOff};

verus! {

proof fn lemma_push_small(val: u32, b: u8)
    requires
        val < 0x200_0000,
    ensures
        vlq_push(val, b) == val * 128 + b % 128,
{
    assert((val << 7u32) | ((b & 0x7Fu8) as u32) == val * 128 + b % 128) by (bit_vector)
        requires
            val < 0x200_0000,
    ;
}

/// The bytes of `vlq_bytes(v)` spelled out by size.
proof fn lemma_vlq_bytes_explicit(v: nat)
    requires
        v < 0x1000_0000,
    ensures
        v < 128 ==> vlq_bytes(v) == seq![v as u8],
        128 <= v < 16384 ==> vlq_bytes(v) == seq![(v / 128 + 128) as u8, (v % 128) as u8],
        16384 <= v < 2097152 ==> vlq_bytes(v) == seq![
            (v / 16384 + 128) as u8,
            ((v / 128) % 128 + 128) as u8,
            (v % 128) as u8,
        ],
        2097152 <= v ==> vlq_bytes(v) == seq![
            (v / 2097152 + 128) as u8,
            ((v / 16384) % 128 + 128) as u8,
            ((v / 128) % 128 + 128) as u8,
            (v % 128) as u8,
        ],
        vlq_bytes(v).len() <= 4,
        vlq_bytes(v).len() >= 1,
{
    reveal_with_fuel(vlq_high, 5);
    let w = v / 128;
    if v < 128 {
        assert(vlq_high(w) =~= Seq::<u8>::empty());
        assert(vlq_bytes(v) =~= seq![v as u8]);
    } else if v < 16384 {
        assert(w / 128 == 0);
        assert(vlq_high(w) =~= seq![(w % 128 + 128) as u8]);
        assert(vlq_bytes(v) =~= seq![(v / 128 + 128) as u8, (v % 128) as u8]);
    } else if v < 2097152 {
        assert(w / 128 / 128 == 0);
        assert(w / 128 == v / 16384);
        assert(vlq_high(w / 128) =~= seq![((w / 128) % 128 + 128) as u8]);
        assert(vlq_high(w) =~= seq![((w / 128) % 128 + 128) as u8, (w % 128 + 128) as u8]);
        assert(vlq_bytes(v) =~= seq![
            (v / 16384 + 128) as u8,
            ((v / 128) % 128 + 128) as u8,
            (v % 128) as u8,
        ]);
    } else {
        assert(w / 128 / 128 / 128 == 0);
        assert(w / 128 == v / 16384);
        assert(w / 128 / 128 == v / 2097152);
        assert(vlq_high(w / 128 / 128) =~= seq![((w / 128 / 128) % 128 + 128) as u8]);
        assert(vlq_high(w / 128) =~= seq![((w / 128 / 128) % 128 + 128) as u8, ((w / 128) % 128 + 128) as u8]);
        assert(vlq_high(w) =~= seq![
            ((w / 128 / 128) % 128 + 128) as u8,
            ((w / 128) % 128 + 128) as u8,
            (w % 128 + 128) as u8,
        ]);
        assert(vlq_bytes(v) =~= seq![
            (v / 2097152 + 128) as u8,
            ((v / 16384) % 128 + 128) as u8,
            ((v / 128) % 128 + 128) as u8,
            (v % 128) as u8,
        ]);
    }
}

/// Reading back a variable-length quantity that `write_vlq` wrote gives its value
/// and length.
pub proof fn lemma_read_written_vlq(data: Seq<u8>, pos: int, v: nat)
    requires
        v < 0x1000_0000,
        0 <= pos,
        pos + vlq_bytes(v).len() <= data.len(),
        data.subrange(pos, pos + vlq_bytes(v).len()) == vlq_bytes(v),
    ensures
        spec_read_var_len(data, pos) == (v as u32, vlq_bytes(v).len()),
{
    lemma_vlq_bytes_explicit(v);
    let b = vlq_bytes(v);
    let n = b.len() as int;
    assert forall|i: int| 0 <= i < n implies data[pos + i] == b[i] by {
        assert(data.subrange(pos, pos + n)[i] == data[pos + i]);
    }
    reveal_with_fuel(vlq_scan, 5);
    assert(data.subrange(pos, pos + n)[0] == data[pos]);
    if v < 128 {
        assert(data[pos] == v as u8);
        lemma_push_small(0, data[pos]);
        assert(vlq_scan(data, pos, 0, 0) == (vlq_push(0, data[pos]), 1nat));
    } else if v < 16384 {
        assert(data[pos] == (v / 128 + 128) as u8);
        assert(data[pos + 1] == (v % 128) as u8);
        lemma_push_small(0, data[pos]);
        let a = vlq_push(0, data[pos]);
        assert(a == v / 128);
        lemma_push_small(a, data[pos + 1]);
        assert(vlq_scan(data, pos + 1, 1, a) == (vlq_push(a, data[pos + 1]), 2nat));
    } else if v < 2097152 {
        assert(data[pos] == (v / 16384 + 128) as u8);
        assert(data[pos + 1] == ((v / 128) % 128 + 128) as u8);
        assert(data[pos + 2] == (v % 128) as u8);
        lemma_push_small(0, data[pos]);
        let a = vlq_push(0, data[pos]);
        assert(a == v / 16384);
        lemma_push_small(a, data[pos + 1]);
        let c = vlq_push(a, data[pos + 1]);
        assert(c == v / 128);
        lemma_push_small(c, data[pos + 2]);
        assert(vlq_scan(data, pos + 2, 2, c) == (vlq_push(c, data[pos + 2]), 3nat));
        assert(vlq_scan(data, pos + 1, 1, a) == vlq_scan(data, pos + 2, 2, c));
    } else {
        assert(data[pos] == (v / 2097152 + 128) as u8);
        assert(data[pos + 1] == ((v / 16384) % 128 + 128) as u8);
        assert(data[pos + 2] == ((v / 128) % 128 + 128) as u8);
        assert(data[pos + 3] == (v % 128) as u8);
        lemma_push_small(0, data[pos]);
        let a = vlq_push(0, data[pos]);
        assert(a == v / 2097152);
        lemma_push_small(a, data[pos + 1]);
        let c = vlq_push(a, data[pos + 1]);
        assert(c == v / 16384);
        lemma_push_small(c, data[pos + 2]);
        let e = vlq_push(c, data[pos + 2]);
        assert(e == v / 128);
        lemma_push_small(e, data[pos + 3]);
        assert(vlq_scan(data, pos + 3, 3, e) == (vlq_push(e, data[pos + 3]), 4nat));
        assert(vlq_scan(data, pos + 2, 2, c) == vlq_scan(data, pos + 3, 3, e));
        assert(vlq_scan(data, pos + 1, 1, a) == vlq_scan(data, pos + 2, 2, c));
    }
}

/// Entries in order of (tick, kind, pitch).
pub open spec fn entries_sorted(s: Seq<OnOff>) -> bool {
    forall|i: int, j: int| 0 <= i < j < s.len() ==> entry_le(#[trigger] s[i], #[trigger] s[j])
}

/// Whether an entry is a note-on the reader counts.
pub open spec fn sounding(e: OnOff) -> bool {
    e.1 != 1 && min127(e.3) > 0
}

/// Number of sounding note-on entries.
pub open spec fn count_sounding(s: Seq<OnOff>) -> nat
    decreases s.len(),
{
    if s.len() == 0 {
        0
    } else {
        count_sounding(s.drop_last()) + if sounding(s.last()) { 1nat } else { 0nat }
    }
}

/// The largest tick among the entries (0 for none).
pub open spec fn max_tick(s: Seq<OnOff>) -> u32
    decreases s.len(),
{
    if s.len() == 0 {
        0
    } else {
        let m = max_tick(s.drop_last());
        if s.last().0 > m { s.last().0 } else { m }
    }
}

proof fn lemma_insert_pos_props(s: Seq<OnOff>, x: OnOff, k: int)
    requires
        0 <= k <= s.len(),
    ensures
        forall|i: int| insert_pos(s, x, k) <= i < k ==> !entry_le(#[trigger] s[i], x),
        insert_pos(s, x, k) > 0 ==> entry_le(s[insert_pos(s, x, k) - 1], x),
    decreases k,
{
    if k > 0 && !entry_le(s[k - 1], x) {
        lemma_insert_pos_props(s, x, k - 1);
    }
}

proof fn lemma_insert_sorted(s: Seq<OnOff>, x: OnOff)
    requires
        entries_sorted(s),
    ensures
        entries_sorted(insert_entry(s, x)),
{
    let p = insert_pos(s, x, s.len() as int);
    lemma_insert_pos_range(s, x, s.len() as int);
    lemma_insert_pos_props(s, x, s.len() as int);
    let r = insert_entry(s, x);
    assert(r == s.insert(p, x));
    assert forall|i: int, j: int| 0 <= i < j < r.len() implies entry_le(#[trigger] r[i], #[trigger] r[j]) by {
        if j < p {
            assert(r[i] == s[i] && r[j] == s[j]);
        } else if j == p {
            assert(r[j] == x);
            assert(r[i] == s[i]);
            assert(entry_le(s[i], s[p - 1]) || i == p - 1);
        } else if i == p {
            assert(r[i] == x);
            assert(r[j] == s[j - 1]);
            assert(!entry_le(s[j - 1], x));
        } else if i < p {
            assert(r[i] == s[i]);
            assert(r[j] == s[j - 1]);
        } else {
            assert(r[i] == s[i - 1]);
            assert(r[j] == s[j - 1]);
        }
    }
}

/// The stable sort orders its entries.
pub proof fn lemma_sort_sorted(s: Seq<OnOff>)
    ensures
        entries_sorted(sort_entries(s)),
    decreases s.len(),
{
    if s.len() > 0 {
        lemma_sort_sorted(s.drop_last());
        lemma_insert_sorted(sort_entries(s.drop_last()), s.last());
    }
}

proof fn lemma_count_insert(s: Seq<OnOff>, p: int, x: OnOff)
    requires
        0 <= p <= s.len(),
    ensures
        count_sounding(s.insert(p, x)) == count_sounding(s) + if sounding(x) { 1nat } else { 0nat },
        max_tick(s.insert(p, x)) == if x.0 > max_tick(s) { x.0 } else { max_tick(s) },
    decreases s.len(),
{
    if p == s.len() {
        assert(s.insert(p, x) =~= s.push(x));
        assert(s.push(x).drop_last() =~= s);
    } else {
        lemma_count_insert(s.drop_last(), p, x);
        assert(s.insert(p, x).drop_last() =~= s.drop_last().insert(p, x));
        assert(s.insert(p, x).last() == s.last());
    }
}

/// Sorting keeps the number of sounding note-ons and the largest tick.
pub proof fn lemma_sort_keeps(s: Seq<OnOff>)
    ensures
        count_sounding(sort_entries(s)) == count_sounding(s),
        max_tick(sort_entries(s)) == max_tick(s),
    decreases s.len(),
{
    if s.len() > 0 {
        lemma_sort_keeps(s.drop_last());
        let t = sort_entries(s.drop_last());
        lemma_sort_len(s.drop_last());
        lemma_insert_pos_range(t, s.last(), t.len() as int);
        lemma_count_insert(t, insert_pos(t, s.last(), t.len() as int), s.last());
    }
}

/// In ordered entries the last one has the largest tick.
pub proof fn lemma_sorted_last_is_max(s: Seq<OnOff>)
    requires
        entries_sorted(s),
        s.len() > 0,
    ensures
        max_tick(s) == s.last().0,
    decreases s.len(),
{
    if s.len() > 1 {
        assert(entries_sorted(s.drop_last())) by {
            assert forall|i: int, j: int| 0 <= i < j < s.drop_last().len() implies entry_le(
                #[trigger] s.drop_last()[i],
                #[trigger] s.drop_last()[j],
            ) by {
                assert(s.drop_last()[i] == s[i] && s.drop_last()[j] == s[j]);
            }
        }
        lemma_sorted_last_is_max(s.drop_last());
        assert(s.drop_last().last() == s[s.len() - 2]);
        assert(entry_le(s[s.len() - 2], s[s.len() - 1]));
        assert(s[s.len() - 2].0 <= s.last().0);
        assert(max_tick(s) == if s.last().0 > max_tick(s.drop_last()) { s.last().0 } else { max_tick(s.drop_last()) });
    } else {
        assert(s.drop_last().len() == 0);
        assert(max_tick(s.drop_last()) == 0);
    }
}

/// `data` holds `b` at `p`.
pub open spec fn bytes_at(data: Seq<u8>, p: int, b: Seq<u8>) -> bool {
    0 <= p && p + b.len() <= data.len() && data.subrange(p, p + b.len()) == b
}

proof fn lemma_bytes_at_split(data: Seq<u8>, p: int, a: Seq<u8>, b: Seq<u8>)
    requires
        bytes_at(data, p, a + b),
    ensures
        bytes_at(data, p, a),
        bytes_at(data, p + a.len(), b),
{
    assert(data.subrange(p, p + a.len()) =~= (a + b).subrange(0, a.len() as int));
    assert((a + b).subrange(0, a.len() as int) =~= a);
    assert(data.subrange(p + a.len(), p + a.len() + b.len()) =~= (a + b).subrange(
        a.len() as int,
        (a.len() + b.len()) as int,
    ));
    assert((a + b).subrange(a.len() as int, (a.len() + b.len()) as int) =~= b);
}

proof fn lemma_bytes_at_index(data: Seq<u8>, p: int, b: Seq<u8>, i: int)
    requires
        bytes_at(data, p, b),
        0 <= i < b.len(),
    ensures
        data[p + i] == b[i],
{
    assert(data.subrange(p, p + b.len())[i] == data[p + i]);
}

/// Where the payload of a meta event written at `p` starts.
pub open spec fn payload_start(p: int, payload: Seq<u8>) -> int {
    p + 3 + vlq_bytes(payload.len()).len()
}

/// A meta event written with delta time 0 is read as that meta event.
proof fn lemma_meta_step(data: Seq<u8>, te: int, s: ScanState, mt: u8, payload: Seq<u8>)
    requires
        !s.fault,
        te <= data.len(),
        payload.len() < 0x1000_0000,
        bytes_at(data, s.tp, vlq_bytes(0) + seq![0xFFu8, mt] + vlq_bytes(payload.len()) + payload),
        s.tp + 3 + vlq_bytes(payload.len()).len() + payload.len() <= te,
    ensures
        clamp_tp(te, event_step(data, te, s)) == meta_event(
            data,
            s,
            mt,
            payload_start(s.tp, payload),
            payload_start(s.tp, payload) + payload.len(),
        ),
        data.subrange(payload_start(s.tp, payload), payload_start(s.tp, payload) + payload.len()) == payload,
{
    let p = s.tp;
    let l = payload.len();
    let z = vlq_bytes(0);
    let lb = vlq_bytes(l);
    lemma_vlq_bytes_explicit(0);
    lemma_vlq_bytes_explicit(l);
    assert(z =~= seq![0u8]);
    let head = z + seq![0xFFu8, mt];
    assert(z + seq![0xFFu8, mt] + lb + payload =~= head + (lb + payload));
    lemma_bytes_at_split(data, p, head, lb + payload);
    lemma_bytes_at_split(data, p + 3, lb, payload);
    lemma_bytes_at_split(data, p, z, seq![0xFFu8, mt]);
    lemma_read_written_vlq(data, p, 0);
    lemma_read_written_vlq(data, p + 3, l);
    lemma_bytes_at_index(data, p + 1, seq![0xFFu8, mt], 0);
    lemma_bytes_at_index(data, p + 1, seq![0xFFu8, mt], 1);
    let start = p + 3 + lb.len();
    assert(min_int(start + l, te) == start + l);
    let s0 = ScanState { tp: p + 1, ticks: (s.ticks + 0) as u32, ..s };
    assert(s0.ticks == s.ticks);
    assert(meta_event(data, s0, mt, start, start + l) == meta_event(data, s, mt, start, start + l));
}

/// A note-on or note-off entry is read as a channel-0 message.
proof fn lemma_note_step(data: Seq<u8>, te: int, s: ScanState, delta: nat, status: u8, pitch: u8, vel: u8)
    requires
        !s.fault,
        te <= data.len(),
        delta < 0x1000_0000,
        status == 0x80 || status == 0x90,
        s.ticks + delta <= u32::MAX,
        s.notes < u32::MAX,
        bytes_at(data, s.tp, vlq_bytes(delta) + seq![status, pitch, vel]),
        s.tp + vlq_bytes(delta).len() + 3 < te,
    ensures
        clamp_tp(te, event_step(data, te, s)) == (ScanState {
            tp: s.tp + vlq_bytes(delta).len() + 3,
            ticks: (s.ticks + delta) as u32,
            running: status,
            mask: s.mask | 1u16,
            notes: if status == 0x90 && vel > 0 { (s.notes + 1) as u32 } else { s.notes },
            ..s
        }),
{
    let p = s.tp;
    let db = vlq_bytes(delta);
    lemma_vlq_bytes_explicit(delta);
    lemma_bytes_at_split(data, p, db, seq![status, pitch, vel]);
    lemma_read_written_vlq(data, p, delta);
    let q = p + db.len();
    lemma_bytes_at_index(data, q, seq![status, pitch, vel], 0);
    lemma_bytes_at_index(data, q, seq![status, pitch, vel], 1);
    lemma_bytes_at_index(data, q, seq![status, pitch, vel], 2);
    assert(data[q] == status);
    assert(data[q + 2] == vel);
    assert((0x90u8 & 0xF0u8) == 0x90u8 && (0x90u8 & 0x0Fu8) == 0u8 && (0x80u8 & 0xF0u8) == 0x80u8
        && (0x80u8 & 0x0Fu8) == 0u8 && (1u16 << 0u16) == 1u16) by (bit_vector);
    let s0 = ScanState { tp: q, ticks: (s.ticks + delta) as u32, ..s };
    let s1 = ScanState { running: status, ..s0 };
    assert(event_step(data, te, s) == channel_message(data, te, s1, status, q + 1, false));
}

proof fn lemma_count_le(s: Seq<OnOff>)
    ensures
        count_sounding(s) <= s.len(),
    decreases s.len(),
{
    if s.len() > 0 {
        lemma_count_le(s.drop_last());
    }
}

proof fn lemma_stream_prefix(es: Seq<OnOff>, k: nat, n: nat)
    requires
        k <= n <= es.len(),
    ensures
        entry_stream(es, k).len() <= entry_stream(es, n).len(),
        entry_stream(es, n).subrange(0, entry_stream(es, k).len() as int) == entry_stream(es, k),
    decreases n - k,
{
    if k < n {
        lemma_stream_prefix(es, k, (n - 1) as nat);
        let a = entry_stream(es, (n - 1) as nat);
        let b = entry_bytes(es, n - 1);
        assert(entry_stream(es, n) == a + b);
        assert((a + b).subrange(0, entry_stream(es, k).len() as int) =~= a.subrange(
            0,
            entry_stream(es, k).len() as int,
        ));
    } else {
        assert(entry_stream(es, n).subrange(0, entry_stream(es, n).len() as int) =~= entry_stream(es, n));
    }
}

proof fn lemma_bytes_at_prefix(data: Seq<u8>, p: int, b: Seq<u8>, m: int)
    requires
        bytes_at(data, p, b),
        0 <= m <= b.len(),
    ensures
        bytes_at(data, p, b.subrange(0, m)),
{
    assert(data.subrange(p, p + m) =~= data.subrange(p, p + b.len()).subrange(0, m));
}

/// The reader's state after the first `k` entries of `es`, written from `p0` on.
pub open spec fn after_entries(s0: ScanState, p0: int, es: Seq<OnOff>, k: nat) -> ScanState {
    ScanState {
        tp: p0 + entry_stream(es, k).len(),
        ticks: prev_tick(es, k as int),
        running: if k == 0 { s0.running } else if es[k - 1].1 == 1 { 0x80u8 } else { 0x90u8 },
        notes: (s0.notes + count_sounding(es.take(k as int))) as u32,
        mask: if k == 0 { s0.mask } else { s0.mask | 1u16 },
        ..s0
    }
}

/// Reading the note entries one after the other.
proof fn lemma_entries_run(data: Seq<u8>, te: int, s0: ScanState, es: Seq<OnOff>, k: nat)
    requires
        !s0.fault,
        s0.ticks == 0,
        0 <= s0.tp,
        te <= data.len(),
        entries_sorted(es),
        deltas_fit(es),
        k <= es.len(),
        bytes_at(data, s0.tp, entry_stream(es, es.len())),
        s0.tp + entry_stream(es, es.len()).len() < te,
        s0.notes + es.len() <= u32::MAX,
    ensures
        track_loop(data, te, s0) == track_loop(data, te, after_entries(s0, s0.tp, es, k)),
    decreases k,
{
    let p0 = s0.tp;
    if k == 0 {
        assert(es.take(0) =~= Seq::<OnOff>::empty());
        assert(after_entries(s0, p0, es, 0) == s0);
    } else {
        let j = (k - 1) as nat;
        lemma_entries_run(data, te, s0, es, j);
        let sk = after_entries(s0, p0, es, j);
        lemma_stream_prefix(es, k, es.len());
        lemma_stream_prefix(es, j, k);
        let sj = entry_stream(es, j);
        let e = es[j as int];
        let status: u8 = if e.1 == 1 { 0x80u8 } else { 0x90u8 };
        let d = entry_delta(es, j as int);
        assert(entry_bytes(es, j as int) == vlq_bytes(d) + seq![status, min127(e.2), min127(e.3)]);
        lemma_bytes_at_prefix(data, p0, entry_stream(es, es.len()), entry_stream(es, k).len() as int);
        assert(entry_stream(es, k) == sj + entry_bytes(es, j as int));
        lemma_bytes_at_split(data, p0, sj, entry_bytes(es, j as int));
        lemma_vlq_bytes_explicit(d);
        lemma_count_le(es.take(j as int));
        if j > 0 {
            assert(entry_le(es[j - 1], es[j as int]));
        }
        assert(prev_tick(es, j as int) + d == e.0);
        lemma_note_step(data, te, sk, d, status, min127(e.2), min127(e.3));
        let s2 = clamp_tp(te, event_step(data, te, sk));
        assert(es.take(k as int).drop_last() =~= es.take(j as int));
        assert(es.take(k as int).last() == e);
        let m0 = s0.mask;
        assert((m0 | 1u16) | 1u16 == m0 | 1u16) by (bit_vector);
        let t = after_entries(s0, p0, es, k);
        assert(s2.tp == t.tp);
        assert(s2.ticks == t.ticks);
        assert(s2.running == t.running);
        assert(s2.mask == t.mask);
        assert(s2.notes == t.notes);
        assert(s2 == after_entries(s0, p0, es, k));
        assert(track_loop(data, te, sk) == track_loop(data, te, s2));
    }
}

proof fn lemma_loop_unfold(data: Seq<u8>, te: int, s: ScanState)
    requires
        !s.fault,
        s.tp < te,
        clamp_tp(te, event_step(data, te, s)).tp > s.tp,
    ensures
        track_loop(data, te, s) == track_loop(data, te, clamp_tp(te, event_step(data, te, s))),
{
}

proof fn lemma_stream_len(es: Seq<OnOff>, k: nat)
    requires
        k <= es.len(),
        deltas_fit(es),
    ensures
        entry_stream(es, k).len() >= 4 * k,
    decreases k,
{
    if k > 0 {
        lemma_stream_len(es, (k - 1) as nat);
        lemma_vlq_bytes_explicit(entry_delta(es, k - 1));
    }
}

/// Events with a non-zero velocity.
pub open spec fn count_voiced(events: Seq<NoteEvent>) -> nat
    decreases events.len(),
{
    if events.len() == 0 {
        0
    } else {
        count_voiced(events.drop_last()) + if events.last().vel > 0 { 1nat } else { 0nat }
    }
}

/// The latest note-off tick of the events (0 for none).
pub open spec fn last_off_tick(events: Seq<NoteEvent>) -> int
    decreases events.len(),
{
    if events.len() == 0 {
        0
    } else {
        let m = last_off_tick(events.drop_last());
        if off_tick(events.last()) > m { off_tick(events.last()) } else { m }
    }
}

proof fn lemma_entries_of_facts(events: Seq<NoteEvent>)
    requires
        crate::midi_gen::events_fit(events),
    ensures
        count_sounding(entries_of(events)) == count_voiced(events),
        max_tick(entries_of(events)) == last_off_tick(events),
        entries_of(events).len() == 2 * events.len(),
    decreases events.len(),
{
    if events.len() > 0 {
        let pre = events.drop_last();
        assert(crate::midi_gen::events_fit(pre)) by {
            assert forall|i: int| 0 <= i < pre.len() implies off_tick(#[trigger] pre[i]) <= u32::MAX by {
                assert(pre[i] == events[i]);
            }
        }
        lemma_entries_of_facts(pre);
        let e = events.last();
        assert(off_tick(events[events.len() - 1]) <= u32::MAX);
        let a = entries_of(pre);
        let x: OnOff = (e.tick, 0u8, e.pitch, e.vel);
        let y: OnOff = (off_tick(e) as u32, 1u8, e.pitch, 0u8);
        assert(entries_of(events) == a + seq![x, y]);
        assert((a + seq![x, y]).drop_last() =~= a.push(x));
        assert(a.push(x).drop_last() =~= a);
        assert(min127(e.vel) > 0 <==> e.vel > 0);
        let full = a + seq![x, y];
        assert(full.last() == y);
        assert(a.push(x).last() == x);
        assert(count_sounding(full) == count_sounding(a.push(x)));
        assert(count_sounding(a.push(x)) == count_sounding(a) + if sounding(x) { 1nat } else { 0nat });
        assert(max_tick(full) == if y.0 > max_tick(a.push(x)) { y.0 } else { max_tick(a.push(x)) });
        assert(max_tick(a.push(x)) == if x.0 > max_tick(a) { x.0 } else { max_tick(a) });
        assert(y.0 >= x.0);
    }
}

/// The tempo value the reader takes from the written Set Tempo event.
pub open spec fn written_tempo(cfg: MidiGenConfig) -> u32 {
    let us = tempo_us_of(cfg);
    (((us / 65536) % 256) * 65536 + ((us / 256) % 256) * 256 + us % 256) as u32
}

/// What reading back a generated file yields.
pub open spec fn expected_summary(name: Seq<char>, cfg: MidiGenConfig, events: Seq<NoteEvent>) -> MidiSummarySpec {
    MidiSummarySpec {
        format: 0,
        track_count: 1,
        ppqn: 96,
        tempo_us: written_tempo(cfg),
        shown_tempo_us: if written_tempo(cfg) > 0 { written_tempo(cfg) } else { 500000 },
        time_signature: "4/4"@,
        key_signature: key_text(Some((spec_key_sig_sf(cfg.key_root, cfg.minor) + 7, !cfg.minor))),
        note_count: count_voiced(events) as u32,
        total_ticks: last_off_tick(events) as u32,
        track_names: if trim_ws(name).len() > 0 { seq![trim_ws(name)] } else { Seq::empty() },
        channels_used: if events.len() > 0 { 1 } else { 0 },
    }
}

proof fn lemma_small_negative_byte(v: i8)
    requires
        -8 <= v < 0,
    ensures
        (v as u8) as int == v as int + 256,
{
    assert(-8 <= v < 0 ==> (v as u8) as int == v as int + 256) by (bit_vector);
}

/// The state after the four meta events that open a generated track.
pub open spec fn head_state(s: ScanState, p_end: int, name: Seq<char>, cfg: MidiGenConfig) -> ScanState {
    ScanState {
        tp: p_end,
        tempo_us: written_tempo(cfg),
        shown_tempo_us: if written_tempo(cfg) > 0 { written_tempo(cfg) } else { s.shown_tempo_us },
        time_sig: Some((4u8, 2u8)),
        key_sig: Some((spec_key_sig_sf(cfg.key_root, cfg.minor) + 7, !cfg.minor)),
        names: if trim_ws(name).len() > 0 { s.names.push(trim_ws(name)) } else { s.names },
        ..s
    }
}

proof fn lemma_read_name(data: Seq<u8>, te: int, s: ScanState, name: Seq<char>)
    requires
        !s.fault,
        te <= data.len(),
        vstd::utf8::encode_utf8(name).len() < 0x1000_0000,
        bytes_at(data, s.tp, name_meta(vstd::utf8::encode_utf8(name))),
        s.tp + name_meta(vstd::utf8::encode_utf8(name)).len() < te,
    ensures
        track_loop(data, te, s) == track_loop(data, te, (ScanState {
            tp: s.tp + name_meta(vstd::utf8::encode_utf8(name)).len(),
            names: if trim_ws(name).len() > 0 { s.names.push(trim_ws(name)) } else { s.names },
            ..s
        })),
{
    let nb = vstd::utf8::encode_utf8(name);
    lemma_vlq_bytes_explicit(nb.len());
    lemma_meta_step(data, te, s, 0x03u8, nb);
    vstd::utf8::encode_utf8_valid_utf8(name);
    vstd::utf8::encode_utf8_decode_utf8(name);
    lemma_loop_unfold(data, te, s);
}

proof fn lemma_read_tempo(data: Seq<u8>, te: int, s: ScanState, cfg: MidiGenConfig)
    requires
        !s.fault,
        te <= data.len(),
        bytes_at(data, s.tp, tempo_meta(cfg)),
        s.tp + tempo_meta(cfg).len() < te,
    ensures
        tempo_meta(cfg).len() == 7,
        track_loop(data, te, s) == track_loop(data, te, (ScanState {
            tp: s.tp + 7,
            tempo_us: written_tempo(cfg),
            shown_tempo_us: if written_tempo(cfg) > 0 { written_tempo(cfg) } else { s.shown_tempo_us },
            ..s
        })),
{
    let us = tempo_us_of(cfg);
    let pay = seq![((us / 65536) % 256) as u8, ((us / 256) % 256) as u8, (us % 256) as u8];
    lemma_vlq_bytes_explicit(0);
    lemma_vlq_bytes_explicit(3);
    assert(tempo_meta(cfg) =~= vlq_bytes(0) + seq![0xFFu8, 0x51u8] + vlq_bytes(3) + pay);
    lemma_meta_step(data, te, s, 0x51u8, pay);
    let st = s.tp + 4;
    assert(data.subrange(st, st + 3) == pay);
    assert(data[st] == pay[0] && data[st + 1] == pay[1] && data[st + 2] == pay[2]) by {
        assert(data.subrange(st, st + 3)[0] == data[st]);
        assert(data.subrange(st, st + 3)[1] == data[st + 1]);
        assert(data.subrange(st, st + 3)[2] == data[st + 2]);
    }
    lemma_loop_unfold(data, te, s);
}

proof fn lemma_read_time_and_key(data: Seq<u8>, te: int, s: ScanState, cfg: MidiGenConfig)
    requires
        !s.fault,
        te <= data.len(),
        key_sig_ok(cfg),
        bytes_at(data, s.tp, time_meta() + key_meta(cfg)),
        s.tp + 14 < te,
    ensures
        time_meta().len() + key_meta(cfg).len() == 14,
        track_loop(data, te, s) == track_loop(data, te, (ScanState {
            tp: s.tp + 14,
            time_sig: Some((4u8, 2u8)),
            key_sig: Some((spec_key_sig_sf(cfg.key_root, cfg.minor) + 7, !cfg.minor)),
            ..s
        })),
{
    lemma_vlq_bytes_explicit(0);
    lemma_vlq_bytes_explicit(4);
    lemma_vlq_bytes_explicit(2);
    let tpay = seq![4u8, 2u8, 24u8, 8u8];
    assert(time_meta() =~= vlq_bytes(0) + seq![0xFFu8, 0x58u8] + vlq_bytes(4) + tpay);
    let sf = spec_key_sig_sf(cfg.key_root, cfg.minor);
    let kpay = seq![sf as u8, if cfg.minor { 1u8 } else { 0u8 }];
    assert(key_meta(cfg) =~= vlq_bytes(0) + seq![0xFFu8, 0x59u8] + vlq_bytes(2) + kpay);
    lemma_bytes_at_split(data, s.tp, time_meta(), key_meta(cfg));
    lemma_meta_step(data, te, s, 0x58u8, tpay);
    let st = s.tp + 4;
    assert(data.subrange(st, st + 4)[1] == data[st + 1]);
    assert(data.subrange(st, st + 4)[0] == data[st]);
    lemma_loop_unfold(data, te, s);
    let s1 = ScanState { tp: s.tp + 8, time_sig: Some((4u8, 2u8)), ..s };
    assert(clamp_tp(te, event_step(data, te, s)) == s1);
    lemma_meta_step(data, te, s1, 0x59u8, kpay);
    let sk = s1.tp + 4;
    assert(data.subrange(sk, sk + 2)[0] == data[sk]);
    assert(data.subrange(sk, sk + 2)[1] == data[sk + 1]);
    assert(-6 <= sf <= 7);
    if sf < 0 {
        lemma_small_negative_byte(sf);
    }
    assert(signed_byte(sf as u8) == sf);
    lemma_loop_unfold(data, te, s1);
}

proof fn lemma_read_eot(data: Seq<u8>, te: int, s: ScanState)
    requires
        !s.fault,
        te <= data.len(),
        bytes_at(data, s.tp, vlq_bytes(0) + seq![0xFFu8, 0x2Fu8, 0x00u8]),
        s.tp + 4 == te,
    ensures
        track_loop(data, te, s) == (ScanState { tp: te, ..s }),
{
    lemma_vlq_bytes_explicit(0);
    let empty = Seq::<u8>::empty();
    assert(vlq_bytes(0) + seq![0xFFu8, 0x2Fu8, 0x00u8] =~= vlq_bytes(0) + seq![0xFFu8, 0x2Fu8] + vlq_bytes(
        0,
    ) + empty);
    lemma_meta_step(data, te, s, 0x2Fu8, empty);
    lemma_loop_unfold(data, te, s);
}

/// Reading the track body of a generated file.
proof fn lemma_read_body(data: Seq<u8>, s: ScanState, name: Seq<char>, cfg: MidiGenConfig, events: Seq<NoteEvent>)
    requires
        !s.fault,
        s.ticks == 0,
        s.notes == 0,
        s.mask == 0,
        track_writable(name, cfg, events),
        bytes_at(data, s.tp, track_body(vstd::utf8::encode_utf8(name), cfg, events)),
        s.tp + track_body(vstd::utf8::encode_utf8(name), cfg, events).len() == data.len(),
        track_body(vstd::utf8::encode_utf8(name), cfg, events).len() <= u32::MAX,
    ensures
        ({
            let r = track_loop(data, data.len() as int, s);
            &&& !r.fault
            &&& r.ticks == last_off_tick(events)
            &&& r.notes == count_voiced(events)
            &&& r.mask == if events.len() > 0 { 1u16 } else { 0u16 }
            &&& r.tempo_us == written_tempo(cfg)
            &&& r.shown_tempo_us == if written_tempo(cfg) > 0 { written_tempo(cfg) } else { s.shown_tempo_us }
            &&& r.time_sig == Some((4u8, 2u8))
            &&& r.key_sig == Some((spec_key_sig_sf(cfg.key_root, cfg.minor) + 7, !cfg.minor))
            &&& r.names == if trim_ws(name).len() > 0 { s.names.push(trim_ws(name)) } else { s.names }
        }),
{
    let te = data.len() as int;
    let nb = vstd::utf8::encode_utf8(name);
    let es = sort_entries(entries_of(events));
    let stream = entry_stream(es, es.len());
    let eot = vlq_bytes(0) + seq![0xFFu8, 0x2Fu8, 0x00u8];
    lemma_vlq_bytes_explicit(0);
    let nm = name_meta(nb);
    let tm = tempo_meta(cfg);
    let tk = time_meta() + key_meta(cfg);
    assert(track_body(nb, cfg, events) =~= nm + (tm + (tk + (stream + eot))));
    lemma_bytes_at_split(data, s.tp, nm, tm + (tk + (stream + eot)));
    let p1 = s.tp + nm.len();
    lemma_bytes_at_split(data, p1, tm, tk + (stream + eot));
    lemma_vlq_bytes_explicit(0);
    lemma_vlq_bytes_explicit(3);
    assert(tm.len() == 7);
    let p2 = p1 + 7;
    lemma_bytes_at_split(data, p2, tk, stream + eot);
    assert(tk.len() == 14);
    let p3 = p2 + 14;
    lemma_bytes_at_split(data, p3, stream, eot);
    let p4 = p3 + stream.len();
    lemma_read_name(data, te, s, name);
    let s1 = ScanState {
        tp: p1,
        names: if trim_ws(name).len() > 0 { s.names.push(trim_ws(name)) } else { s.names },
        ..s
    };
    lemma_read_tempo(data, te, s1, cfg);
    let s2 = ScanState {
        tp: p2,
        tempo_us: written_tempo(cfg),
        shown_tempo_us: if written_tempo(cfg) > 0 { written_tempo(cfg) } else { s.shown_tempo_us },
        ..s1
    };
    lemma_read_time_and_key(data, te, s2, cfg);
    let s3 = ScanState {
        tp: p3,
        time_sig: Some((4u8, 2u8)),
        key_sig: Some((spec_key_sig_sf(cfg.key_root, cfg.minor) + 7, !cfg.minor)),
        ..s2
    };
    lemma_sort_sorted(entries_of(events));
    lemma_sort_len(entries_of(events));
    lemma_sort_keeps(entries_of(events));
    lemma_entries_of_facts(events);
    lemma_stream_len(es, es.len());
    lemma_entries_run(data, te, s3, es, es.len());
    let s4 = after_entries(s3, p3, es, es.len());
    assert(es.take(es.len() as int) =~= es);
    lemma_read_eot(data, te, s4);
    if es.len() > 0 {
        lemma_sorted_last_is_max(es);
        assert(prev_tick(es, es.len() as int) == es.last().0);
    }
    assert(0u16 | 1u16 == 1u16) by (bit_vector);
    lemma_count_le(es);
    assert(stream.len() <= track_body(nb, cfg, events).len());
    assert(track_loop(data, te, s) == track_loop(data, te, s1));
    assert(track_loop(data, te, s1) == track_loop(data, te, s2));
    assert(track_loop(data, te, s2) == track_loop(data, te, s3));
    assert(track_loop(data, te, s3) == track_loop(data, te, s4));
    let r = track_loop(data, te, s);
    assert(r == (ScanState { tp: te, ..s4 }));
    assert(r.ticks == last_off_tick(events));
    assert(r.notes == count_voiced(events));
    assert(r.mask == if events.len() > 0 { 1u16 } else { 0u16 });
}

#[verifier::spinoff_prover]
proof fn lemma_file_layout(name: Seq<char>, cfg: MidiGenConfig, events: Seq<NoteEvent>)
    requires
        track_body(vstd::utf8::encode_utf8(name), cfg, events).len() <= u32::MAX,
    ensures
        ({
            let data = spec_build_midi_file(name, cfg, events);
            let body = track_body(vstd::utf8::encode_utf8(name), cfg, events);
            &&& data.len() == 22 + body.len()
            &&& is_mthd(data)
            &&& be32(data, 4) == 6
            &&& be16(data, 8) == 0
            &&& be16(data, 10) == 1
            &&& be16(data, 12) == 96
            &&& is_mtrk(data, 14)
            &&& track_end_of(data, 14) == data.len()
            &&& bytes_at(data, 22, body)
        }),
{
    let nb = vstd::utf8::encode_utf8(name);
    let body = track_body(nb, cfg, events);
    let data = spec_build_midi_file(name, cfg, events);
    let head = file_header() + seq![0x4Du8, 0x54u8, 0x72u8, 0x6Bu8] + u32_be(body.len() as u32);
    assert(data =~= head + body);
    assert(head.len() == 22);
    assert(data.subrange(22, 22 + body.len() as int) =~= body);
    let l = body.len() as u32;
    assert(data[18] == (l / 16777216) as u8);
    assert(data[19] == ((l / 65536) % 256) as u8);
    assert(data[20] == ((l / 256) % 256) as u8);
    assert(data[21] == (l % 256) as u8);
    assert(be32(data, 18) == body.len());
}

proof fn lemma_channel_counts()
    ensures
        bit_count(1u16, 16) == 1,
        bit_count(0u16, 16) == 0,
{
    reveal_with_fuel(bit_count, 17);
    assert(forall|j: u16| 1 <= j < 16 ==> #[trigger] ((1u16 >> j) & 1u16) == 0u16) by (bit_vector);
    assert(forall|j: u16| j < 16 ==> #[trigger] ((0u16 >> j) & 1u16) == 0u16) by (bit_vector);
    assert((1u16 >> 0u16) & 1u16 == 1u16) by (bit_vector);
}

proof fn lemma_common_time_text()
    ensures
        time_sig_text(Some((4u8, 2u8))) == "4/4"@,
{
    reveal_strlit("4/4");
    reveal_strlit("/");
    assert((1u32 << 2u32) == 4u32) by (bit_vector);
    assert(crate::text::decimal(4) =~= seq!['4']);
    assert(time_sig_text(Some((4u8, 2u8))) =~= "4/4"@);
}

/// A generated file reads back as what was written: format 0 with one track at
/// 96 ticks per quarter note, the written tempo, 4/4 time, the key of the
/// configuration, one counted note per event with a non-zero velocity, the latest
/// note-off as its length in ticks, the trimmed track name (when not blank), and
/// channel 0 as the one channel in use (none without events).
pub proof fn law_generated_file_reads_back(name: Seq<char>, cfg: MidiGenConfig, events: Seq<NoteEvent>)
    requires
        track_writable(name, cfg, events),
        track_body(vstd::utf8::encode_utf8(name), cfg, events).len() <= u32::MAX,
    ensures
        spec_parse_midi(spec_build_midi_file(name, cfg, events)) == Ok::<Option<MidiSummarySpec>, ()>(
            Some(expected_summary(name, cfg, events)),
        ),
{
    let data = spec_build_midi_file(name, cfg, events);
    lemma_file_layout(name, cfg, events);
    let s0 = initial_scan();
    let s = ScanState { tp: 22, ticks: 0, running: 0, ..s0 };
    lemma_read_body(data, s, name, cfg, events);
    let r = track_loop(data, data.len() as int, s);
    assert(tracks_loop(data, 1, 14, s0, 0) == tracks_loop(data, 0, data.len() as int, r, if r.ticks > 0 { r.ticks } else { 0 }));
    lemma_channel_counts();
    lemma_common_time_text();
}

} // verus!
