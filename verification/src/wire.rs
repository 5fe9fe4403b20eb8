//! The wire codec.
//!
//! Record batches cross the host/guest boundary as byte strings: a
//! batch is serialized before a guest call, and the buffer a guest
//! hands back is deserialized into successful records plus an optional
//! error signal.  Integers travel little-endian; byte strings are
//! length-prefixed; timestamps carry a sign byte before an 8-byte
//! magnitude.  A buffer that does not parse, or that leaves trailing
//! bytes, is malformed; the engine contains that exactly like a trap.

use vstd::prelude::*;
use crate::records::Record;
use crate::records::RecordModel;
use crate::records::WireRecord;
use crate::records::WireRecordModel;
use crate::records::wire_record_wf;
use crate::records::wire_of;
use crate::records::models_of;
use crate::records::wire_models_of;
use crate::errors::EngineError;

verus! {

/// 256 to the power `n`: the number of values of an `n`-byte field.
pub open spec fn pow256(n: nat) -> int
    decreases n,
{
    if n == 0 {
        1
    } else {
        256 * pow256((n - 1) as nat)
    }
}

/// The `n` little-endian bytes of `x`.
pub open spec fn le_bytes(x: int, n: nat) -> Seq<u8>
    decreases n,
{
    if n == 0 {
        Seq::empty()
    } else {
        seq![(x % 256) as u8] + le_bytes(x / 256, (n - 1) as nat)
    }
}

/// The value of a little-endian byte string.
pub open spec fn le_val(s: Seq<u8>) -> int
    decreases s.len(),
{
    if s.len() == 0 {
        0
    } else {
        s[0] + 256 * le_val(s.drop_first())
    }
}

pub proof fn lemma_pow256_pos(n: nat)
    ensures
        pow256(n) >= 1,
    decreases n,
{
    if n > 0 {
        lemma_pow256_pos((n - 1) as nat);
    }
}

pub proof fn lemma_pow256_mono(a: nat, b: nat)
    requires
        a <= b,
    ensures
        pow256(a) <= pow256(b),
    decreases b,
{
    if a < b {
        lemma_pow256_mono(a, (b - 1) as nat);
        lemma_pow256_pos((b - 1) as nat);
    }
}

pub proof fn lemma_pow256_8()
    ensures
        pow256(4) == 0x1_0000_0000,
        pow256(8) == 0x1_0000_0000_0000_0000,
{
    assert(pow256(0) == 1);
    assert(pow256(1) == 256);
    assert(pow256(2) == 0x1_0000);
    assert(pow256(3) == 0x100_0000);
    assert(pow256(4) == 0x1_0000_0000);
    assert(pow256(5) == 0x100_0000_0000);
    assert(pow256(6) == 0x1_0000_0000_0000);
    assert(pow256(7) == 0x100_0000_0000_0000);
    assert(pow256(8) == 0x1_0000_0000_0000_0000);
}

/// A little-endian byte string denotes a value below 256^length.
pub proof fn lemma_le_val_bound(s: Seq<u8>)
    ensures
        0 <= le_val(s) < pow256(s.len()),
    decreases s.len(),
{
    if s.len() == 0 {
    } else {
        lemma_le_val_bound(s.drop_first());
        assert(pow256(s.len()) == 256 * pow256((s.len() - 1) as nat));
    }
}

/// Encoding then decoding an `n`-byte little-endian field restores the
/// value.
pub proof fn lemma_le_round_trip(x: int, n: nat)
    requires
        0 <= x < pow256(n),
    ensures
        le_bytes(x, n).len() == n,
        le_val(le_bytes(x, n)) == x,
    decreases n,
{
    if n == 0 {
    } else {
        vstd::arithmetic::div_mod::lemma_fundamental_div_mod(x, 256);
        vstd::arithmetic::div_mod::lemma_mod_bound(x, 256);
        assert(pow256(n) == 256 * pow256((n - 1) as nat));
        assert(x / 256 < pow256((n - 1) as nat)) by {
            if x / 256 >= pow256((n - 1) as nat) {
                assert(256 * (x / 256) >= 256 * pow256((n - 1) as nat)) by (nonlinear_arith)
                    requires
                        x / 256 >= pow256((n - 1) as nat),
                ;
            }
        }
        assert(x / 256 >= 0) by {
            if x / 256 < 0 {
                assert(256 * (x / 256) <= 256 * -1) by (nonlinear_arith)
                    requires
                        x / 256 <= -1,
                ;
            }
        }
        lemma_le_round_trip(x / 256, (n - 1) as nat);
        assert(le_bytes(x, n).drop_first() =~= le_bytes(x / 256, (n - 1) as nat));
        assert(le_bytes(x, n)[0] == (x % 256) as u8);
    }
}

/// Little-endian encoding of `x` into `n` bytes.
pub fn le_bytes_exec(x: u64, n: u8) -> (r: Vec<u8>)
    ensures
        r@ == le_bytes(x as int, n as nat),
    decreases n,
{
    if n == 0 {
        let r: Vec<u8> = Vec::new();
        proof {
            assert(r@ =~= le_bytes(x as int, 0));
        }
        r
    } else {
        let mut r: Vec<u8> = Vec::new();
        r.push((x % 256) as u8);
        let mut rest = le_bytes_exec(x / 256, n - 1);
        r.append(&mut rest);
        proof {
            assert(r@ =~= le_bytes(x as int, n as nat));
        }
        r
    }
}

/// Reads the `n`-byte little-endian field at `p`.
pub fn read_le(bytes: &Vec<u8>, p: usize, n: usize) -> (r: u64)
    requires
        p + n <= bytes@.len(),
        n <= 8,
    ensures
        r as int == le_val(bytes@.subrange(p as int, p + n)),
    decreases n,
{
    if n == 0 {
        proof {
            assert(bytes@.subrange(p as int, p as int) =~= Seq::<u8>::empty());
        }
        0
    } else {
        proof {
            vstd::std_specs::vec::axiom_spec_len(bytes);
        }
        let b = bytes[p];
        let rest = read_le(bytes, p + 1, n - 1);
        proof {
            let s = bytes@.subrange(p as int, p + n);
            assert(s.drop_first() =~= bytes@.subrange(p + 1 as int, p + n));
            assert(s[0] == b);
            lemma_le_val_bound(bytes@.subrange(p + 1 as int, p + n));
            lemma_pow256_mono((n - 1) as nat, 7);
            lemma_pow256_8();
            assert(pow256(7) == 0x100_0000_0000_0000);
        }
        b as u64 + 256 * rest
    }
}

/// A copy of `bytes[from..to]`.
pub fn copy_range(bytes: &Vec<u8>, from: usize, to: usize) -> (r: Vec<u8>)
    requires
        from <= to <= bytes@.len(),
    ensures
        r@ == bytes@.subrange(from as int, to as int),
{
    let mut r: Vec<u8> = Vec::new();
    let mut i: usize = from;
    while i < to
        invariant
            from <= i <= to <= bytes@.len(),
            r@ == bytes@.subrange(from as int, i as int),
        decreases to - i,
    {
        r.push(bytes[i]);
        proof {
            assert(r@ =~= bytes@.subrange(from as int, i + 1 as int));
        }
        i = i + 1;
    }
    r
}

// ---------------------------------------------------------------------
// Specification of the wire grammar.
// ---------------------------------------------------------------------

/// A guest's error signal: a code and a message.
pub ghost struct GuestErrorModel {
    pub code: u32,
    pub message: Seq<u8>,
}

/// Model of a decoded guest result buffer.
pub ghost struct GuestOutputModel {
    pub records: Seq<WireRecordModel>,
    pub error: Option<GuestErrorModel>,
}

/// Model of a decoded input buffer.
pub ghost struct WireInputModel {
    pub base_offset: int,
    pub records: Seq<WireRecordModel>,
    pub join_records: Option<Seq<WireRecordModel>>,
}

/// A signed 8-byte field: a sign tag, then the magnitude. A negative
/// value `x` travels as `-1 - x`.
pub open spec fn enc_i64(x: int) -> Seq<u8> {
    if x >= 0 {
        seq![0u8] + le_bytes(x, 8)
    } else {
        seq![1u8] + le_bytes(-1 - x, 8)
    }
}

pub open spec fn dec_i64(s: Seq<u8>) -> Option<(int, Seq<u8>)> {
    if s.len() < 9 {
        Option::None
    } else {
        let m = le_val(s.subrange(1, 9));
        if m >= 0x8000_0000_0000_0000 {
            Option::None
        } else if s[0] == 0u8 {
            Option::Some((m, s.skip(9)))
        } else if s[0] == 1u8 {
            Option::Some((-1 - m, s.skip(9)))
        } else {
            Option::None
        }
    }
}

/// A length-prefixed byte string.
pub open spec fn enc_bytes(b: Seq<u8>) -> Seq<u8> {
    le_bytes(b.len() as int, 8) + b
}

pub open spec fn dec_bytes(s: Seq<u8>) -> Option<(Seq<u8>, Seq<u8>)> {
    if s.len() < 8 {
        Option::None
    } else {
        let n = le_val(s.take(8));
        if 8 + n <= s.len() {
            Option::Some((s.subrange(8, 8 + n), s.skip(8 + n)))
        } else {
            Option::None
        }
    }
}

/// One wire record: key tag (and key), value, timestamp.
pub open spec fn enc_wire_record(w: WireRecordModel) -> Seq<u8> {
    (match w.key {
        Option::None => seq![0u8],
        Option::Some(k) => seq![1u8] + enc_bytes(k),
    }) + enc_bytes(w.value) + enc_i64(w.timestamp)
}

pub open spec fn dec_wire_record(s: Seq<u8>) -> Option<(WireRecordModel, Seq<u8>)> {
    if s.len() < 1 {
        Option::None
    } else if s[0] == 0u8 {
        match dec_bytes(s.skip(1)) {
            Option::None => Option::None,
            Option::Some((v, s1)) => match dec_i64(s1) {
                Option::None => Option::None,
                Option::Some((t, s2)) => Option::Some(
                    (WireRecordModel { key: Option::None, value: v, timestamp: t }, s2),
                ),
            },
        }
    } else if s[0] == 1u8 {
        match dec_bytes(s.skip(1)) {
            Option::None => Option::None,
            Option::Some((k, s1)) => match dec_bytes(s1) {
                Option::None => Option::None,
                Option::Some((v, s2)) => match dec_i64(s2) {
                    Option::None => Option::None,
                    Option::Some((t, s3)) => Option::Some(
                        (WireRecordModel { key: Option::Some(k), value: v, timestamp: t }, s3),
                    ),
                },
            },
        }
    } else {
        Option::None
    }
}

/// A run of `n` wire records.
pub open spec fn enc_wire_records(rs: Seq<WireRecordModel>) -> Seq<u8>
    decreases rs.len(),
{
    if rs.len() == 0 {
        Seq::empty()
    } else {
        enc_wire_record(rs[0]) + enc_wire_records(rs.drop_first())
    }
}

pub open spec fn dec_wire_records(s: Seq<u8>, n: nat) -> Option<(Seq<WireRecordModel>, Seq<u8>)>
    decreases n,
{
    if n == 0 {
        Option::Some((Seq::empty(), s))
    } else {
        match dec_wire_record(s) {
            Option::None => Option::None,
            Option::Some((w, s1)) => match dec_wire_records(s1, (n - 1) as nat) {
                Option::None => Option::None,
                Option::Some((ws, s2)) => Option::Some((seq![w] + ws, s2)),
            },
        }
    }
}

/// The optional error signal at the tail of a result buffer.
pub open spec fn enc_err(e: Option<GuestErrorModel>) -> Seq<u8> {
    match e {
        Option::None => seq![0u8],
        Option::Some(g) => seq![1u8] + le_bytes(g.code as int, 4) + enc_bytes(g.message),
    }
}

pub open spec fn dec_err(s: Seq<u8>) -> Option<(Option<GuestErrorModel>, Seq<u8>)> {
    if s.len() < 1 {
        Option::None
    } else if s[0] == 0u8 {
        Option::Some((Option::None, s.skip(1)))
    } else if s[0] == 1u8 {
        if s.len() < 5 {
            Option::None
        } else {
            let c = le_val(s.subrange(1, 5));
            match dec_bytes(s.skip(5)) {
                Option::None => Option::None,
                Option::Some((m, s1)) => Option::Some(
                    (Option::Some(GuestErrorModel { code: c as u32, message: m }), s1),
                ),
            }
        }
    } else {
        Option::None
    }
}

/// A whole guest result buffer: record count, records, error signal.
pub open spec fn enc_output(g: GuestOutputModel) -> Seq<u8> {
    le_bytes(g.records.len() as int, 8) + enc_wire_records(g.records) + enc_err(g.error)
}

/// Decoding a result buffer; trailing bytes make it malformed.
pub open spec fn dec_output(s: Seq<u8>) -> Option<GuestOutputModel> {
    if s.len() < 8 {
        Option::None
    } else {
        let n = le_val(s.take(8));
        match dec_wire_records(s.skip(8), n as nat) {
            Option::None => Option::None,
            Option::Some((ws, s1)) => match dec_err(s1) {
                Option::None => Option::None,
                Option::Some((e, s2)) => if s2.len() == 0 {
                    Option::Some(GuestOutputModel { records: ws, error: e })
                } else {
                    Option::None
                },
            },
        }
    }
}

/// A whole input buffer: base offset, records, optional join batch.
pub open spec fn enc_input(
    base: int,
    rs: Seq<WireRecordModel>,
    join: Option<Seq<WireRecordModel>>,
) -> Seq<u8> {
    enc_i64(base) + le_bytes(rs.len() as int, 8) + enc_wire_records(rs) + (match join {
        Option::None => seq![0u8],
        Option::Some(j) => seq![1u8] + le_bytes(j.len() as int, 8) + enc_wire_records(j),
    })
}

/// The wire images of a batch of host records: offsets are dropped.
pub open spec fn wires_of(s: Seq<Record>) -> Seq<WireRecordModel> {
    models_of(s).map_values(|r: RecordModel| wire_of(r))
}

/// A guest result whose fields fit the wire's integer widths.
pub open spec fn guest_output_wf(g: GuestOutputModel) -> bool {
    &&& g.records.len() < 0x1_0000_0000_0000_0000
    &&& (forall|i: int| 0 <= i < g.records.len() ==> wire_record_wf(#[trigger] g.records[i]))
    &&& (match g.error {
        Option::Some(e) => e.message.len() < 0x1_0000_0000_0000_0000,
        Option::None => true,
    })
}

/// Decoding an input buffer; trailing bytes make it malformed.
pub open spec fn dec_input(s: Seq<u8>) -> Option<WireInputModel> {
    match dec_i64(s) {
        Option::None => Option::None,
        Option::Some((base, s1)) => if s1.len() < 8 {
            Option::None
        } else {
            let n = le_val(s1.take(8));
            match dec_wire_records(s1.skip(8), n as nat) {
                Option::None => Option::None,
                Option::Some((ws, s2)) => if s2.len() < 1 {
                    Option::None
                } else if s2[0] == 0u8 {
                    if s2.len() == 1 {
                        Option::Some(
                            (WireInputModel {
                                base_offset: base,
                                records: ws,
                                join_records: Option::None,
                            }),
                        )
                    } else {
                        Option::None
                    }
                } else if s2[0] == 1u8 {
                    if s2.len() < 9 {
                        Option::None
                    } else {
                        let m = le_val(s2.subrange(1, 9));
                        match dec_wire_records(s2.skip(9), m as nat) {
                            Option::None => Option::None,
                            Option::Some((js, s3)) => if s3.len() == 0 {
                                Option::Some(
                                    (WireInputModel {
                                        base_offset: base,
                                        records: ws,
                                        join_records: Option::Some(js),
                                    }),
                                )
                            } else {
                                Option::None
                            },
                        }
                    }
                } else {
                    Option::None
                },
            }
        },
    }
}

// ---------------------------------------------------------------------
// Executable codec.
// ---------------------------------------------------------------------

/// A guest's error signal as a value.
pub struct GuestError {
    pub code: u32,
    pub message: Vec<u8>,
}

impl View for GuestError {
    type V = GuestErrorModel;

    open spec fn view(&self) -> GuestErrorModel {
        GuestErrorModel { code: self.code, message: self.message@ }
    }
}

/// The model of an optional error signal.
pub open spec fn err_model_of(e: Option<GuestError>) -> Option<GuestErrorModel> {
    match e {
        Option::Some(g) => Option::Some(g@),
        Option::None => Option::None,
    }
}

/// A decoded guest result buffer.
pub struct GuestOutput {
    pub records: Vec<WireRecord>,
    pub error: Option<GuestError>,
}

impl View for GuestOutput {
    type V = GuestOutputModel;

    open spec fn view(&self) -> GuestOutputModel {
        GuestOutputModel { records: wire_models_of(self.records@), error: err_model_of(self.error) }
    }
}

/// A decoded input buffer, as a guest sees it.
pub struct WireInput {
    pub base_offset: i64,
    pub records: Vec<WireRecord>,
    pub join_records: Option<Vec<WireRecord>>,
}

impl View for WireInput {
    type V = WireInputModel;

    open spec fn view(&self) -> WireInputModel {
        WireInputModel {
            base_offset: self.base_offset as int,
            records: wire_models_of(self.records@),
            join_records: match self.join_records {
                Option::Some(j) => Option::Some(wire_models_of(j@)),
                Option::None => Option::None,
            },
        }
    }
}

/// Appending one record to a run appends its encoding.
pub proof fn lemma_enc_records_push(rs: Seq<WireRecordModel>, w: WireRecordModel)
    ensures
        enc_wire_records(rs.push(w)) == enc_wire_records(rs) + enc_wire_record(w),
    decreases rs.len(),
{
    let p = rs.push(w);
    if rs.len() == 0 {
        assert(p.drop_first() =~= Seq::<WireRecordModel>::empty());
        assert(p.drop_first() == Seq::<WireRecordModel>::empty());
        assert(p[0] == w);
        assert(enc_wire_records(p) == enc_wire_record(w) + enc_wire_records(
            Seq::<WireRecordModel>::empty(),
        ));
        assert(enc_wire_record(w) + Seq::<u8>::empty() =~= Seq::<u8>::empty() + enc_wire_record(
            w,
        ));
    } else {
        lemma_enc_records_push(rs.drop_first(), w);
        assert(p.drop_first() =~= rs.drop_first().push(w));
        assert(p.drop_first() == rs.drop_first().push(w));
        assert(p[0] == rs[0]);
        assert(enc_wire_records(p) == enc_wire_record(rs[0]) + (enc_wire_records(rs.drop_first())
            + enc_wire_record(w)));
        assert(enc_wire_record(rs[0]) + (enc_wire_records(rs.drop_first()) + enc_wire_record(w))
            =~= (enc_wire_record(rs[0]) + enc_wire_records(rs.drop_first())) + enc_wire_record(
            w,
        ));
    }
}

fn encode_bytes_field(out: &mut Vec<u8>, b: &Vec<u8>)
    ensures
        final(out)@ == old(out)@ + enc_bytes(b@),
{
    let mut lenb = le_bytes_exec(b.len() as u64, 8);
    out.append(&mut lenb);
    out.extend_from_slice(b.as_slice());
    proof {
        assert(out@ =~= old(out)@ + enc_bytes(b@));
    }
}

fn encode_i64_field(out: &mut Vec<u8>, x: i64)
    ensures
        final(out)@ == old(out)@ + enc_i64(x as int),
{
    if x >= 0 {
        out.push(0u8);
        let mut m = le_bytes_exec(x as u64, 8);
        out.append(&mut m);
        proof {
            assert(out@ =~= old(out)@ + enc_i64(x as int));
        }
    } else {
        out.push(1u8);
        let mag: u64 = (-(x + 1)) as u64;
        let mut m = le_bytes_exec(mag, 8);
        out.append(&mut m);
        proof {
            assert(mag as int == -1 - x);
            assert(out@ =~= old(out)@ + enc_i64(x as int));
        }
    }
}

/// Serializes one wire record.
pub fn encode_wire_record_into(out: &mut Vec<u8>, rec: &WireRecord)
    ensures
        final(out)@ == old(out)@ + enc_wire_record(rec@),
{
    match &rec.key {
        Option::None => {
            out.push(0u8);
        },
        Option::Some(k) => {
            out.push(1u8);
            encode_bytes_field(out, k);
        },
    }
    encode_bytes_field(out, &rec.value);
    encode_i64_field(out, rec.timestamp);
    proof {
        assert(out@ =~= old(out)@ + enc_wire_record(rec@));
    }
}

/// Serializes one host record as it travels on the wire.
pub fn encode_host_record_into(out: &mut Vec<u8>, rec: &Record)
    ensures
        final(out)@ == old(out)@ + enc_wire_record(wire_of(rec@)),
{
    match &rec.key {
        Option::None => {
            out.push(0u8);
        },
        Option::Some(k) => {
            out.push(1u8);
            encode_bytes_field(out, k);
        },
    }
    encode_bytes_field(out, &rec.value);
    encode_i64_field(out, rec.timestamp);
    proof {
        assert(out@ =~= old(out)@ + enc_wire_record(wire_of(rec@)));
    }
}

fn encode_host_records(out: &mut Vec<u8>, records: &Vec<Record>)
    ensures
        final(out)@ == old(out)@ + enc_wire_records(wires_of(records@)),
{
    let mut i: usize = 0;
    proof {
        assert(wires_of(records@).take(0) =~= Seq::<WireRecordModel>::empty());
        assert(out@ =~= old(out)@ + enc_wire_records(wires_of(records@).take(0)));
    }
    while i < records.len()
        invariant
            i <= records@.len(),
            out@ == old(out)@ + enc_wire_records(wires_of(records@).take(i as int)),
        decreases records@.len() - i,
    {
        encode_host_record_into(out, &records[i]);
        proof {
            let ws = wires_of(records@);
            lemma_enc_records_push(ws.take(i as int), ws[i as int]);
            assert(ws.take(i + 1) =~= ws.take(i as int).push(ws[i as int]));
            assert(ws[i as int] == wire_of(records@[i as int]@));
            assert(out@ =~= old(out)@ + enc_wire_records(ws.take(i + 1)));
        }
        i = i + 1;
    }
    proof {
        assert(wires_of(records@).take(records@.len() as int) =~= wires_of(records@));
    }
}

/// Serializes a guest result buffer.
pub fn encode_output(g: &GuestOutput) -> (r: Vec<u8>)
    ensures
        r@ == enc_output(g@),
{
    let mut out = le_bytes_exec(g.records.len() as u64, 8);
    let mut i: usize = 0;
    proof {
        assert(wire_models_of(g.records@).take(0) =~= Seq::<WireRecordModel>::empty());
        assert(out@ =~= le_bytes(g.records@.len() as int, 8) + enc_wire_records(
            wire_models_of(g.records@).take(0),
        ));
    }
    while i < g.records.len()
        invariant
            i <= g.records@.len(),
            out@ == le_bytes(g.records@.len() as int, 8) + enc_wire_records(
                wire_models_of(g.records@).take(i as int),
            ),
        decreases g.records@.len() - i,
    {
        encode_wire_record_into(&mut out, &g.records[i]);
        proof {
            let ws = wire_models_of(g.records@);
            lemma_enc_records_push(ws.take(i as int), ws[i as int]);
            assert(ws.take(i + 1) =~= ws.take(i as int).push(ws[i as int]));
            assert(out@ =~= le_bytes(g.records@.len() as int, 8) + enc_wire_records(
                ws.take(i + 1),
            ));
        }
        i = i + 1;
    }
    proof {
        assert(wire_models_of(g.records@).take(g.records@.len() as int) =~= wire_models_of(
            g.records@,
        ));
    }
    match &g.error {
        Option::None => {
            out.push(0u8);
        },
        Option::Some(e) => {
            out.push(1u8);
            let mut c = le_bytes_exec(e.code as u64, 4);
            out.append(&mut c);
            encode_bytes_field(&mut out, &e.message);
        },
    }
    proof {
        assert(out@ =~= enc_output(g@));
    }
    out
}

/// Serializes an input batch for a guest call.
pub fn encode_input(base_offset: i64, records: &Vec<Record>, join: &Option<Vec<Record>>) -> (r:
    Vec<u8>)
    ensures
        r@ == enc_input(
            base_offset as int,
            wires_of(records@),
            match *join {
                Option::Some(j) => Option::Some(wires_of(j@)),
                Option::None => Option::None,
            },
        ),
{
    let mut out: Vec<u8> = Vec::new();
    encode_i64_field(&mut out, base_offset);
    let mut n = le_bytes_exec(records.len() as u64, 8);
    out.append(&mut n);
    encode_host_records(&mut out, records);
    match join {
        Option::None => {
            out.push(0u8);
        },
        Option::Some(j) => {
            out.push(1u8);
            let mut jn = le_bytes_exec(j.len() as u64, 8);
            out.append(&mut jn);
            encode_host_records(&mut out, j);
        },
    }
    proof {
        assert(out@ =~= enc_input(
            base_offset as int,
            wires_of(records@),
            match *join {
                Option::Some(j) => Option::Some(wires_of(j@)),
                Option::None => Option::None,
            },
        ));
    }
    out
}

fn dec_bytes_at(bytes: &Vec<u8>, p: usize) -> (r: Option<(Vec<u8>, usize)>)
    requires
        p <= bytes@.len(),
    ensures
        match r {
            Option::Some((v, q)) => {
                &&& dec_bytes(bytes@.skip(p as int)) == Option::Some(
                    (v@, bytes@.skip(q as int)),
                )
                &&& p <= q <= bytes@.len()
            },
            Option::None => dec_bytes(bytes@.skip(p as int)) is None,
        },
{
    proof {
        vstd::std_specs::vec::axiom_spec_len(bytes);
    }
    if bytes.len() - p < 8 {
        Option::None
    } else {
        let n = read_le(bytes, p, 8);
        proof {
            assert(bytes@.skip(p as int).take(8) =~= bytes@.subrange(p as int, p + 8));
        }
        let rem: usize = bytes.len() - p - 8;
        if n > rem as u64 {
            Option::None
        } else {
            let q = p + 8 + (n as usize);
            let v = copy_range(bytes, p + 8, q);
            proof {
                assert(bytes@.skip(p as int).subrange(8, 8 + n as int) =~= bytes@.subrange(
                    p + 8,
                    q as int,
                ));
                assert(bytes@.skip(p as int).skip(8 + n as int) =~= bytes@.skip(q as int));
            }
            Option::Some((v, q))
        }
    }
}

fn dec_i64_at(bytes: &Vec<u8>, p: usize) -> (r: Option<(i64, usize)>)
    requires
        p <= bytes@.len(),
    ensures
        match r {
            Option::Some((x, q)) => {
                &&& dec_i64(bytes@.skip(p as int)) == Option::Some(
                    (x as int, bytes@.skip(q as int)),
                )
                &&& p <= q <= bytes@.len()
            },
            Option::None => dec_i64(bytes@.skip(p as int)) is None,
        },
{
    proof {
        vstd::std_specs::vec::axiom_spec_len(bytes);
    }
    if bytes.len() - p < 9 {
        Option::None
    } else {
        let tag = bytes[p];
        let m = read_le(bytes, p + 1, 8);
        proof {
            assert(bytes@.skip(p as int).subrange(1, 9) =~= bytes@.subrange(p + 1, p + 9));
            assert(bytes@.skip(p as int)[0] == tag);
            assert(bytes@.skip(p as int).skip(9) =~= bytes@.skip(p + 9));
        }
        if m >= 0x8000_0000_0000_0000u64 {
            Option::None
        } else if tag == 0 {
            Option::Some((m as i64, p + 9))
        } else if tag == 1 {
            Option::Some((-1i64 - (m as i64), p + 9))
        } else {
            Option::None
        }
    }
}

fn dec_record_at(bytes: &Vec<u8>, p: usize) -> (r: Option<(WireRecord, usize)>)
    requires
        p <= bytes@.len(),
    ensures
        match r {
            Option::Some((w, q)) => {
                &&& dec_wire_record(bytes@.skip(p as int)) == Option::Some(
                    (w@, bytes@.skip(q as int)),
                )
                &&& p <= q <= bytes@.len()
            },
            Option::None => dec_wire_record(bytes@.skip(p as int)) is None,
        },
{
    proof {
        vstd::std_specs::vec::axiom_spec_len(bytes);
    }
    if bytes.len() == p {
        Option::None
    } else {
        let tag = bytes[p];
        proof {
            assert(bytes@.skip(p as int)[0] == tag);
            assert(bytes@.skip(p as int).skip(1) =~= bytes@.skip(p + 1));
        }
        if tag == 0 {
            match dec_bytes_at(bytes, p + 1) {
                Option::None => Option::None,
                Option::Some((v, p1)) => match dec_i64_at(bytes, p1) {
                    Option::None => Option::None,
                    Option::Some((t, p2)) => Option::Some(
                        (WireRecord { key: Option::None, value: v, timestamp: t }, p2),
                    ),
                },
            }
        } else if tag == 1 {
            match dec_bytes_at(bytes, p + 1) {
                Option::None => Option::None,
                Option::Some((k, p1)) => match dec_bytes_at(bytes, p1) {
                    Option::None => Option::None,
                    Option::Some((v, p2)) => match dec_i64_at(bytes, p2) {
                        Option::None => Option::None,
                        Option::Some((t, p3)) => Option::Some(
                            (WireRecord { key: Option::Some(k), value: v, timestamp: t }, p3),
                        ),
                    },
                },
            }
        } else {
            Option::None
        }
    }
}

fn dec_records_at(bytes: &Vec<u8>, p: usize, n: u64) -> (r: Option<(Vec<WireRecord>, usize)>)
    requires
        p <= bytes@.len(),
    ensures
        match r {
            Option::Some((v, q)) => {
                &&& dec_wire_records(bytes@.skip(p as int), n as nat) == Option::Some(
                    (wire_models_of(v@), bytes@.skip(q as int)),
                )
                &&& p <= q <= bytes@.len()
            },
            Option::None => dec_wire_records(bytes@.skip(p as int), n as nat) is None,
        },
{
    let mut v: Vec<WireRecord> = Vec::new();
    let mut cur: usize = p;
    let mut i: u64 = 0;
    proof {
        assert(wire_models_of(v@) =~= Seq::<WireRecordModel>::empty());
    }
    while i < n
        invariant
            p <= cur <= bytes@.len(),
            i <= n,
            match dec_wire_records(bytes@.skip(cur as int), (n - i) as nat) {
                Option::None => dec_wire_records(bytes@.skip(p as int), n as nat) is None,
                Option::Some(pair) => dec_wire_records(bytes@.skip(p as int), n as nat)
                    == Option::Some((wire_models_of(v@) + pair.0, pair.1)),
            },
        decreases n - i,
    {
        match dec_record_at(bytes, cur) {
            Option::None => {
                proof {
                    assert(dec_wire_records(bytes@.skip(cur as int), (n - i) as nat) is None);
                }
                return Option::None;
            },
            Option::Some((w, q)) => {
                proof {
                    let rest = (n - i - 1) as nat;
                    assert(dec_wire_records(bytes@.skip(cur as int), (n - i) as nat) == (
                    match dec_wire_records(bytes@.skip(q as int), rest) {
                        Option::None => Option::None::<(Seq<WireRecordModel>, Seq<u8>)>,
                        Option::Some((ws, s2)) => Option::Some((seq![w@] + ws, s2)),
                    }));
                    assert(wire_models_of(v@.push(w)) =~= wire_models_of(v@) + seq![w@]);
                    match dec_wire_records(bytes@.skip(q as int), rest) {
                        Option::None => {},
                        Option::Some(pair) => {
                            assert(wire_models_of(v@) + (seq![w@] + pair.0) =~= (wire_models_of(
                                v@,
                            ) + seq![w@]) + pair.0);
                        },
                    }
                }
                v.push(w);
                cur = q;
                i = i + 1;
            },
        }
    }
    proof {
        assert(dec_wire_records(bytes@.skip(cur as int), 0) == Option::Some(
            (Seq::<WireRecordModel>::empty(), bytes@.skip(cur as int)),
        ));
        assert(wire_models_of(v@) + Seq::<WireRecordModel>::empty() =~= wire_models_of(v@));
    }
    Option::Some((v, cur))
}

fn dec_err_at(bytes: &Vec<u8>, p: usize) -> (r: Option<(Option<GuestError>, usize)>)
    requires
        p <= bytes@.len(),
    ensures
        match r {
            Option::Some((e, q)) => {
                &&& dec_err(bytes@.skip(p as int)) == Option::Some(
                    (err_model_of(e), bytes@.skip(q as int)),
                )
                &&& p <= q <= bytes@.len()
            },
            Option::None => dec_err(bytes@.skip(p as int)) is None,
        },
{
    proof {
        vstd::std_specs::vec::axiom_spec_len(bytes);
    }
    if bytes.len() == p {
        Option::None
    } else {
        let tag = bytes[p];
        proof {
            assert(bytes@.skip(p as int)[0] == tag);
            assert(bytes@.skip(p as int).skip(1) =~= bytes@.skip(p + 1));
        }
        if tag == 0 {
            Option::Some((Option::None, p + 1))
        } else if tag == 1 {
            if bytes.len() - p < 5 {
                Option::None
            } else {
                let c64 = read_le(bytes, p + 1, 4);
                proof {
                    assert(bytes@.skip(p as int).subrange(1, 5) =~= bytes@.subrange(p + 1, p + 5));
                    lemma_le_val_bound(bytes@.subrange(p + 1, p + 5));
                    lemma_pow256_8();
                    assert(bytes@.skip(p as int).skip(5) =~= bytes@.skip(p + 5));
                }
                let code = c64 as u32;
                match dec_bytes_at(bytes, p + 5) {
                    Option::None => Option::None,
                    Option::Some((m, q)) => Option::Some(
                        (Option::Some(GuestError { code, message: m }), q),
                    ),
                }
            }
        } else {
            Option::None
        }
    }
}

/// Deserializes a guest result buffer; a buffer that does not parse, or
/// that leaves trailing bytes, is a serialization error.
pub fn decode_output(bytes: &Vec<u8>) -> (r: Result<GuestOutput, EngineError>)
    ensures
        match r {
            Result::Ok(g) => dec_output(bytes@) == Option::Some(g@),
            Result::Err(e) => dec_output(bytes@) is None && e == EngineError::Serialization,
        },
{
    proof {
        vstd::std_specs::vec::axiom_spec_len(bytes);
    }
    if bytes.len() < 8 {
        Result::Err(EngineError::Serialization)
    } else {
        let n = read_le(bytes, 0, 8);
        proof {
            assert(bytes@.take(8) =~= bytes@.subrange(0, 8));
        }
        match dec_records_at(bytes, 8, n) {
            Option::None => Result::Err(EngineError::Serialization),
            Option::Some((v, q)) => match dec_err_at(bytes, q) {
                Option::None => Result::Err(EngineError::Serialization),
                Option::Some((e, q2)) => {
                    if q2 == bytes.len() {
                        proof {
                            assert(bytes@.skip(q2 as int).len() == 0);
                        }
                        Result::Ok(GuestOutput { records: v, error: e })
                    } else {
                        proof {
                            assert(bytes@.skip(q2 as int).len() != 0);
                        }
                        Result::Err(EngineError::Serialization)
                    }
                },
            },
        }
    }
}

/// Deserializes an input buffer, as a guest would.
pub fn decode_input(bytes: &Vec<u8>) -> (r: Result<WireInput, EngineError>)
    ensures
        match r {
            Result::Ok(d) => dec_input(bytes@) == Option::Some(d@),
            Result::Err(e) => dec_input(bytes@) is None && e == EngineError::Serialization,
        },
{
    proof {
        vstd::std_specs::vec::axiom_spec_len(bytes);
        assert(bytes@.skip(0) =~= bytes@);
    }
    match dec_i64_at(bytes, 0) {
        Option::None => Result::Err(EngineError::Serialization),
        Option::Some((base, p0)) => {
            if bytes.len() - p0 < 8 {
                Result::Err(EngineError::Serialization)
            } else {
                let n = read_le(bytes, p0, 8);
                proof {
                    assert(bytes@.skip(p0 as int).take(8) =~= bytes@.subrange(
                        p0 as int,
                        p0 + 8,
                    ));
                    assert(bytes@.skip(p0 as int).skip(8) =~= bytes@.skip(p0 + 8));
                }
                match dec_records_at(bytes, p0 + 8, n) {
                    Option::None => Result::Err(EngineError::Serialization),
                    Option::Some((v, q)) => {
                        if q == bytes.len() {
                            Result::Err(EngineError::Serialization)
                        } else {
                            let tag = bytes[q];
                            proof {
                                assert(bytes@.skip(q as int)[0] == tag);
                            }
                            if tag == 0 {
                                if bytes.len() - q == 1 {
                                    Result::Ok(
                                        WireInput {
                                            base_offset: base,
                                            records: v,
                                            join_records: Option::None,
                                        },
                                    )
                                } else {
                                    Result::Err(EngineError::Serialization)
                                }
                            } else if tag == 1 {
                                if bytes.len() - q < 9 {
                                    Result::Err(EngineError::Serialization)
                                } else {
                                    let m = read_le(bytes, q + 1, 8);
                                    proof {
                                        assert(bytes@.skip(q as int).subrange(1, 9)
                                            =~= bytes@.subrange(q + 1, q + 9));
                                        assert(bytes@.skip(q as int).skip(9) =~= bytes@.skip(
                                            q + 9,
                                        ));
                                    }
                                    match dec_records_at(bytes, q + 9, m) {
                                        Option::None => Result::Err(EngineError::Serialization),
                                        Option::Some((jv, q3)) => {
                                            if q3 == bytes.len() {
                                                proof {
                                                    assert(bytes@.skip(q3 as int).len() == 0);
                                                }
                                                Result::Ok(
                                                    WireInput {
                                                        base_offset: base,
                                                        records: v,
                                                        join_records: Option::Some(jv),
                                                    },
                                                )
                                            } else {
                                                proof {
                                                    assert(bytes@.skip(q3 as int).len() != 0);
                                                }
                                                Result::Err(EngineError::Serialization)
                                            }
                                        },
                                    }
                                }
                            } else {
                                Result::Err(EngineError::Serialization)
                            }
                        }
                    },
                }
            }
        },
    }
}

// ---------------------------------------------------------------------
// Round trips: decoding an encoded value restores it.
// ---------------------------------------------------------------------

pub proof fn lemma_dec_bytes_enc(b: Seq<u8>, rest: Seq<u8>)
    requires
        b.len() < 0x1_0000_0000_0000_0000,
    ensures
        dec_bytes(enc_bytes(b) + rest) == Option::Some((b, rest)),
{
    lemma_pow256_8();
    lemma_le_round_trip(b.len() as int, 8);
    let s = enc_bytes(b) + rest;
    assert(s.take(8) =~= le_bytes(b.len() as int, 8));
    assert(s.subrange(8, 8 + b.len() as int) =~= b);
    assert(s.skip(8 + b.len() as int) =~= rest);
}

pub proof fn lemma_dec_i64_enc(x: int, rest: Seq<u8>)
    requires
        -0x8000_0000_0000_0000 <= x < 0x8000_0000_0000_0000,
    ensures
        dec_i64(enc_i64(x) + rest) == Option::Some((x, rest)),
{
    lemma_pow256_8();
    let s = enc_i64(x) + rest;
    if x >= 0 {
        lemma_le_round_trip(x, 8);
        assert(s.subrange(1, 9) =~= le_bytes(x, 8));
        assert(s[0] == 0u8);
        assert(s.skip(9) =~= rest);
    } else {
        lemma_le_round_trip(-1 - x, 8);
        assert(s.subrange(1, 9) =~= le_bytes(-1 - x, 8));
        assert(s[0] == 1u8);
        assert(s.skip(9) =~= rest);
    }
}

pub proof fn lemma_dec_record_enc(w: WireRecordModel, rest: Seq<u8>)
    requires
        wire_record_wf(w),
    ensures
        dec_wire_record(enc_wire_record(w) + rest) == Option::Some((w, rest)),
{
    let s = enc_wire_record(w) + rest;
    match w.key {
        Option::None => {
            assert(s[0] == 0u8);
            assert(s.skip(1) =~= enc_bytes(w.value) + (enc_i64(w.timestamp) + rest));
            lemma_dec_bytes_enc(w.value, enc_i64(w.timestamp) + rest);
            lemma_dec_i64_enc(w.timestamp, rest);
        },
        Option::Some(k) => {
            assert(s[0] == 1u8);
            assert(s.skip(1) =~= enc_bytes(k) + (enc_bytes(w.value) + (enc_i64(w.timestamp)
                + rest)));
            lemma_dec_bytes_enc(k, enc_bytes(w.value) + (enc_i64(w.timestamp) + rest));
            lemma_dec_bytes_enc(w.value, enc_i64(w.timestamp) + rest);
            lemma_dec_i64_enc(w.timestamp, rest);
        },
    }
}

pub proof fn lemma_dec_records_enc(ws: Seq<WireRecordModel>, rest: Seq<u8>)
    requires
        forall|i: int| 0 <= i < ws.len() ==> wire_record_wf(#[trigger] ws[i]),
    ensures
        dec_wire_records(enc_wire_records(ws) + rest, ws.len()) == Option::Some((ws, rest)),
    decreases ws.len(),
{
    if ws.len() == 0 {
        assert(enc_wire_records(ws) + rest =~= rest);
    } else {
        let tail = ws.drop_first();
        assert(enc_wire_records(ws) + rest =~= enc_wire_record(ws[0]) + (enc_wire_records(tail)
            + rest));
        lemma_dec_record_enc(ws[0], enc_wire_records(tail) + rest);
        lemma_dec_records_enc(tail, rest);
        assert(seq![ws[0]] + tail =~= ws);
    }
}

pub proof fn lemma_dec_err_enc(e: Option<GuestErrorModel>, rest: Seq<u8>)
    requires
        match e {
            Option::Some(g) => g.message.len() < 0x1_0000_0000_0000_0000,
            Option::None => true,
        },
    ensures
        dec_err(enc_err(e) + rest) == Option::Some((e, rest)),
{
    let s = enc_err(e) + rest;
    match e {
        Option::None => {
            assert(s[0] == 0u8);
            assert(s.skip(1) =~= rest);
        },
        Option::Some(g) => {
            lemma_pow256_8();
            lemma_le_round_trip(g.code as int, 4);
            assert(s[0] == 1u8);
            assert(s.subrange(1, 5) =~= le_bytes(g.code as int, 4));
            assert(s.skip(5) =~= enc_bytes(g.message) + rest);
            lemma_dec_bytes_enc(g.message, rest);
            assert((le_val(s.subrange(1, 5)) as u32) == g.code);
        },
    }
}

/// Decoding an encoded guest result restores it exactly.
pub proof fn lemma_output_round_trip(g: GuestOutputModel)
    ensures
        guest_output_wf(g) ==> dec_output(enc_output(g)) == Option::Some(g),
{
    if guest_output_wf(g) {
        lemma_pow256_8();
        lemma_le_round_trip(g.records.len() as int, 8);
        let s = enc_output(g);
        assert(s.take(8) =~= le_bytes(g.records.len() as int, 8));
        assert(s.skip(8) =~= enc_wire_records(g.records) + (enc_err(g.error)
            + Seq::<u8>::empty()));
        lemma_dec_records_enc(g.records, enc_err(g.error) + Seq::<u8>::empty());
        lemma_dec_err_enc(g.error, Seq::<u8>::empty());
        assert(enc_err(g.error) + Seq::<u8>::empty() =~= enc_err(g.error) + Seq::<u8>::empty());
    }
}

/// Decoding an encoded input batch restores it exactly.
pub proof fn lemma_input_round_trip(
    base: int,
    rs: Seq<WireRecordModel>,
    join: Option<Seq<WireRecordModel>>,
)
    requires
        -0x8000_0000_0000_0000 <= base < 0x8000_0000_0000_0000,
        rs.len() < 0x1_0000_0000_0000_0000,
        forall|i: int| 0 <= i < rs.len() ==> wire_record_wf(#[trigger] rs[i]),
        match join {
            Option::Some(j) => j.len() < 0x1_0000_0000_0000_0000 && (forall|i: int|
                0 <= i < j.len() ==> wire_record_wf(#[trigger] j[i])),
            Option::None => true,
        },
    ensures
        dec_input(enc_input(base, rs, join)) == Option::Some(
            (WireInputModel { base_offset: base, records: rs, join_records: join }),
        ),
{
    lemma_pow256_8();
    let s = enc_input(base, rs, join);
    let jtail = match join {
        Option::None => seq![0u8],
        Option::Some(j) => seq![1u8] + le_bytes(j.len() as int, 8) + enc_wire_records(j),
    };
    assert(s =~= enc_i64(base) + (le_bytes(rs.len() as int, 8) + (enc_wire_records(rs) + jtail)));
    lemma_dec_i64_enc(base, le_bytes(rs.len() as int, 8) + (enc_wire_records(rs) + jtail));
    let s1 = le_bytes(rs.len() as int, 8) + (enc_wire_records(rs) + jtail);
    lemma_le_round_trip(rs.len() as int, 8);
    assert(s1.take(8) =~= le_bytes(rs.len() as int, 8));
    assert(s1.skip(8) =~= enc_wire_records(rs) + jtail);
    lemma_dec_records_enc(rs, jtail);
    match join {
        Option::None => {
            assert(jtail[0] == 0u8);
            assert(jtail.len() == 1);
        },
        Option::Some(j) => {
            assert(jtail[0] == 1u8);
            lemma_le_round_trip(j.len() as int, 8);
            assert(jtail.subrange(1, 9) =~= le_bytes(j.len() as int, 8));
            assert(jtail.skip(9) =~= enc_wire_records(j) + Seq::<u8>::empty());
            lemma_dec_records_enc(j, Seq::<u8>::empty());
        },
    }
}

} // verus!
