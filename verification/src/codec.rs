//! The byte encoding of field values. The archive format proper is an
//! external collaborator; what this module fixes is the explicit,
//! length-prefixed encoding that the serialize half writes through the sink
//! and the deserialize half reads back, together with the proof that decoding
//! inverts encoding.

use vstd::prelude::*;

use crate::value::FieldValue;
use crate::value::FieldValueModel;

verus! {

/// Encoding tag for a single byte.
pub const TAG_BYTE: u8 = 1;

/// Encoding tag for a machine integer.
pub const TAG_INT: u8 = 2;

/// Encoding tag for a byte string.
pub const TAG_BYTES: u8 = 3;

/// Encoding tag for a list of machine integers.
pub const TAG_INTS: u8 = 4;

/// Encoding tag for a list of byte strings.
pub const TAG_TEXTS: u8 = 5;

/// Encoding tag for an absent optional integer.
pub const TAG_OPT_NONE: u8 = 6;

/// Encoding tag for a present optional integer.
pub const TAG_OPT_SOME: u8 = 7;

/// The eight little-endian bytes of a machine integer.
#[verifier::opaque]
pub open spec fn u64_le(x: u64) -> Seq<u8> {
    seq![
        (x & 0xff) as u8,
        ((x >> 8) & 0xff) as u8,
        ((x >> 16) & 0xff) as u8,
        ((x >> 24) & 0xff) as u8,
        ((x >> 32) & 0xff) as u8,
        ((x >> 40) & 0xff) as u8,
        ((x >> 48) & 0xff) as u8,
        ((x >> 56) & 0xff) as u8,
    ]
}

/// The machine integer read from eight little-endian bytes.
#[verifier::opaque]
pub open spec fn le_u64(s: Seq<u8>) -> u64
    recommends
        s.len() == 8,
{
    (s[0] as u64) | ((s[1] as u64) << 8) | ((s[2] as u64) << 16) | ((s[3] as u64) << 24) | ((
    s[4] as u64) << 32) | ((s[5] as u64) << 40) | ((s[6] as u64) << 48) | ((s[7] as u64) << 56)
}

/// Reading back the little-endian bytes of an integer yields the integer.
pub proof fn lemma_u64_le_round_trip(x: u64)
    ensures
        u64_le(x).len() == 8,
        le_u64(u64_le(x)) == x,
{
    reveal(u64_le);
    reveal(le_u64);
    assert((((x & 0xff) as u8) as u64) | (((((x >> 8) & 0xff) as u8) as u64) << 8) | (((((x >> 16)
        & 0xff) as u8) as u64) << 16) | (((((x >> 24) & 0xff) as u8) as u64) << 24) | (((((x >> 32)
        & 0xff) as u8) as u64) << 32) | (((((x >> 40) & 0xff) as u8) as u64) << 40) | (((((x >> 48)
        & 0xff) as u8) as u64) << 48) | (((((x >> 56) & 0xff) as u8) as u64) << 56) == x)
        by (bit_vector);
}

/// The concatenated little-endian encodings of a list of integers.
pub open spec fn enc_u64s(xs: Seq<u64>) -> Seq<u8>
    decreases xs.len(),
{
    if xs.len() == 0 {
        Seq::empty()
    } else {
        u64_le(xs[0]) + enc_u64s(xs.drop_first())
    }
}

/// One byte string, length-prefixed.
pub open spec fn enc_text(t: Seq<u8>) -> Seq<u8>
    recommends
        t.len() <= u64::MAX,
{
    u64_le(t.len() as u64) + t
}

/// The concatenated length-prefixed encodings of a list of byte strings.
pub open spec fn enc_texts(ts: Seq<Seq<u8>>) -> Seq<u8>
    decreases ts.len(),
{
    if ts.len() == 0 {
        Seq::empty()
    } else {
        enc_text(ts[0]) + enc_texts(ts.drop_first())
    }
}

/// Whether a field model's lengths fit the length prefixes of the encoding.
/// Every value held in an executable [`FieldValue`] satisfies this.
pub open spec fn field_model_wf(m: FieldValueModel) -> bool {
    match m {
        FieldValueModel::Byte(_) => true,
        FieldValueModel::Int(_) => true,
        FieldValueModel::Bytes(bs) => bs.len() <= u64::MAX,
        FieldValueModel::Ints(xs) => xs.len() <= u64::MAX,
        FieldValueModel::Texts(ts) => ts.len() <= u64::MAX && (forall|i: int|
            0 <= i < ts.len() ==> #[trigger] ts[i].len() <= u64::MAX),
        FieldValueModel::OptInt(_) => true,
    }
}

/// The encoding of one field value: a tag byte, then the value's payload,
/// with every variable-length part length-prefixed.
pub open spec fn enc_field(m: FieldValueModel) -> Seq<u8> {
    match m {
        FieldValueModel::Byte(b) => seq![TAG_BYTE, b],
        FieldValueModel::Int(x) => seq![TAG_INT] + u64_le(x),
        FieldValueModel::Bytes(bs) => seq![TAG_BYTES] + u64_le(bs.len() as u64) + bs,
        FieldValueModel::Ints(xs) => seq![TAG_INTS] + u64_le(xs.len() as u64) + enc_u64s(xs),
        FieldValueModel::Texts(ts) => seq![TAG_TEXTS] + u64_le(ts.len() as u64) + enc_texts(ts),
        FieldValueModel::OptInt(o) => match o {
            Option::None => seq![TAG_OPT_NONE],
            Option::Some(x) => seq![TAG_OPT_SOME] + u64_le(x),
        },
    }
}

/// Decodes `n` little-endian integers, requiring that they fill `s` exactly.
pub open spec fn dec_u64s(s: Seq<u8>, n: nat) -> Option<Seq<u64>>
    decreases n,
{
    if n == 0 {
        if s.len() == 0 {
            Option::Some(Seq::empty())
        } else {
            Option::None
        }
    } else if s.len() < 8 {
        Option::None
    } else {
        match dec_u64s(s.skip(8), (n - 1) as nat) {
            Option::Some(rest) => Option::Some(seq![le_u64(s.take(8))] + rest),
            Option::None => Option::None,
        }
    }
}

/// Decodes `n` length-prefixed byte strings, requiring that they fill `s`
/// exactly.
pub open spec fn dec_texts(s: Seq<u8>, n: nat) -> Option<Seq<Seq<u8>>>
    decreases n,
{
    if n == 0 {
        if s.len() == 0 {
            Option::Some(Seq::empty())
        } else {
            Option::None
        }
    } else if s.len() < 8 {
        Option::None
    } else {
        let l = le_u64(s.take(8)) as int;
        if s.len() - 8 < l {
            Option::None
        } else {
            match dec_texts(s.skip(8 + l), (n - 1) as nat) {
                Option::Some(rest) => Option::Some(seq![s.subrange(8, 8 + l)] + rest),
                Option::None => Option::None,
            }
        }
    }
}

/// Decodes one field value from `s`, requiring that the encoding fills `s`
/// exactly.
pub open spec fn dec_field(s: Seq<u8>) -> Option<FieldValueModel> {
    if s.len() < 1 {
        Option::None
    } else {
        let tag = s[0];
        let body = s.skip(1);
        if tag == TAG_BYTE {
            if body.len() == 1 {
                Option::Some(FieldValueModel::Byte(body[0]))
            } else {
                Option::None
            }
        } else if tag == TAG_INT {
            if body.len() == 8 {
                Option::Some(FieldValueModel::Int(le_u64(body)))
            } else {
                Option::None
            }
        } else if tag == TAG_BYTES {
            if body.len() < 8 {
                Option::None
            } else if body.len() - 8 == le_u64(body.take(8)) as int {
                Option::Some(FieldValueModel::Bytes(body.skip(8)))
            } else {
                Option::None
            }
        } else if tag == TAG_INTS {
            if body.len() < 8 {
                Option::None
            } else {
                match dec_u64s(body.skip(8), le_u64(body.take(8)) as nat) {
                    Option::Some(xs) => Option::Some(FieldValueModel::Ints(xs)),
                    Option::None => Option::None,
                }
            }
        } else if tag == TAG_TEXTS {
            if body.len() < 8 {
                Option::None
            } else {
                match dec_texts(body.skip(8), le_u64(body.take(8)) as nat) {
                    Option::Some(ts) => Option::Some(FieldValueModel::Texts(ts)),
                    Option::None => Option::None,
                }
            }
        } else if tag == TAG_OPT_NONE {
            if body.len() == 0 {
                Option::Some(FieldValueModel::OptInt(Option::None))
            } else {
                Option::None
            }
        } else if tag == TAG_OPT_SOME {
            if body.len() == 8 {
                Option::Some(FieldValueModel::OptInt(Option::Some(le_u64(body))))
            } else {
                Option::None
            }
        } else {
            Option::None
        }
    }
}

/// Appending one integer to a list appends its bytes to the encoding.
pub proof fn lemma_enc_u64s_push(xs: Seq<u64>, x: u64)
    ensures
        enc_u64s(xs.push(x)) == enc_u64s(xs) + u64_le(x),
    decreases xs.len(),
{
    if xs.len() == 0 {
        assert(xs.push(x)[0] == x);
        assert(xs.push(x).drop_first() =~= Seq::<u64>::empty());
        assert(enc_u64s(Seq::<u64>::empty()) == Seq::<u8>::empty());
        assert(enc_u64s(xs.push(x)) == u64_le(x) + enc_u64s(xs.push(x).drop_first()));
        assert(enc_u64s(xs.push(x)) =~= enc_u64s(xs) + u64_le(x));
    } else {
        lemma_enc_u64s_push(xs.drop_first(), x);
        assert(xs.push(x)[0] == xs[0]);
        assert(xs.push(x).drop_first() =~= xs.drop_first().push(x));
        assert(enc_u64s(xs.push(x)) == u64_le(xs[0]) + enc_u64s(xs.drop_first().push(x)));
        assert(enc_u64s(xs) == u64_le(xs[0]) + enc_u64s(xs.drop_first()));
        assert(enc_u64s(xs.push(x)) =~= enc_u64s(xs) + u64_le(x));
    }
}

/// Appending one byte string to a list appends its length-prefixed bytes to
/// the encoding.
pub proof fn lemma_enc_texts_push(ts: Seq<Seq<u8>>, t: Seq<u8>)
    ensures
        enc_texts(ts.push(t)) == enc_texts(ts) + enc_text(t),
    decreases ts.len(),
{
    if ts.len() == 0 {
        assert(ts.push(t)[0] == t);
        assert(ts.push(t).drop_first() =~= Seq::<Seq<u8>>::empty());
        assert(enc_texts(Seq::<Seq<u8>>::empty()) == Seq::<u8>::empty());
        assert(enc_texts(ts.push(t)) == enc_text(t) + enc_texts(ts.push(t).drop_first()));
        assert(enc_texts(ts.push(t)) =~= enc_texts(ts) + enc_text(t));
    } else {
        lemma_enc_texts_push(ts.drop_first(), t);
        assert(ts.push(t)[0] == ts[0]);
        assert(ts.push(t).drop_first() =~= ts.drop_first().push(t));
        assert(enc_texts(ts.push(t)) == enc_text(ts[0]) + enc_texts(ts.drop_first().push(t)));
        assert(enc_texts(ts) == enc_text(ts[0]) + enc_texts(ts.drop_first()));
        assert(enc_texts(ts.push(t)) =~= enc_texts(ts) + enc_text(t));
    }
}

/// Decoding the encoding of a list of integers yields the list.
pub proof fn lemma_dec_enc_u64s(xs: Seq<u64>)
    ensures
        enc_u64s(xs).len() == 8 * xs.len(),
        dec_u64s(enc_u64s(xs), xs.len()) == Option::Some(xs),
    decreases xs.len(),
{
    if xs.len() == 0 {
    } else {
        lemma_dec_enc_u64s(xs.drop_first());
        lemma_u64_le_round_trip(xs[0]);
        let s = enc_u64s(xs);
        assert(s.take(8) =~= u64_le(xs[0]));
        assert(s.skip(8) =~= enc_u64s(xs.drop_first()));
        assert(seq![xs[0]] + xs.drop_first() =~= xs);
    }
}

/// Decoding the encoding of a list of byte strings yields the list.
pub proof fn lemma_dec_enc_texts(ts: Seq<Seq<u8>>)
    requires
        forall|i: int| 0 <= i < ts.len() ==> #[trigger] ts[i].len() <= u64::MAX,
    ensures
        dec_texts(enc_texts(ts), ts.len()) == Option::Some(ts),
    decreases ts.len(),
{
    if ts.len() == 0 {
    } else {
        assert(ts.drop_first().len() == ts.len() - 1);
        assert(forall|i: int|
            0 <= i < ts.drop_first().len() ==> #[trigger] ts.drop_first()[i].len() <= u64::MAX);
        lemma_dec_enc_texts(ts.drop_first());
        let t = ts[0];
        lemma_u64_le_round_trip(t.len() as u64);
        let s = enc_texts(ts);
        let l = t.len() as int;
        assert(s =~= u64_le(t.len() as u64) + t + enc_texts(ts.drop_first()));
        assert(s.take(8) =~= u64_le(t.len() as u64));
        assert(le_u64(s.take(8)) as int == l);
        assert(s.len() - 8 >= l);
        assert(s.subrange(8, 8 + l) =~= t);
        assert(s.skip(8 + l) =~= enc_texts(ts.drop_first()));
        assert(seq![t] + ts.drop_first() =~= ts);
    }
}

/// Decoding the encoding of a field value yields the value: the central
/// inversion fact of the codec.
pub proof fn lemma_dec_enc_field(m: FieldValueModel)
    requires
        field_model_wf(m),
    ensures
        dec_field(enc_field(m)) == Option::Some(m),
{
    let s = enc_field(m);
    match m {
        FieldValueModel::Byte(b) => {
            assert(s.len() == 2);
            assert(s.skip(1) =~= seq![b]);
        },
        FieldValueModel::Int(x) => {
            lemma_u64_le_round_trip(x);
            assert(s.skip(1) =~= u64_le(x));
        },
        FieldValueModel::Bytes(bs) => {
            lemma_u64_le_round_trip(bs.len() as u64);
            let body = s.skip(1);
            assert(body =~= u64_le(bs.len() as u64) + bs);
            assert(body.take(8) =~= u64_le(bs.len() as u64));
            assert(body.len() - 8 == le_u64(body.take(8)) as int);
            assert(body.skip(8) =~= bs);
        },
        FieldValueModel::Ints(xs) => {
            lemma_u64_le_round_trip(xs.len() as u64);
            lemma_dec_enc_u64s(xs);
            let body = s.skip(1);
            assert(body =~= u64_le(xs.len() as u64) + enc_u64s(xs));
            assert(body.take(8) =~= u64_le(xs.len() as u64));
            assert(body.skip(8) =~= enc_u64s(xs));
            assert(le_u64(body.take(8)) as nat == xs.len());
        },
        FieldValueModel::Texts(ts) => {
            lemma_u64_le_round_trip(ts.len() as u64);
            lemma_dec_enc_texts(ts);
            let body = s.skip(1);
            assert(body =~= u64_le(ts.len() as u64) + enc_texts(ts));
            assert(body.take(8) =~= u64_le(ts.len() as u64));
            assert(body.skip(8) =~= enc_texts(ts));
            assert(le_u64(body.take(8)) as nat == ts.len());
        },
        FieldValueModel::OptInt(o) => match o {
            Option::None => {
                assert(s.len() == 1);
                assert(s.skip(1) =~= Seq::<u8>::empty());
            },
            Option::Some(x) => {
                lemma_u64_le_round_trip(x);
                assert(s.skip(1) =~= u64_le(x));
            },
        },
    }
}

/// Appends the eight little-endian bytes of `x`.
pub fn push_u64_le(out: &mut Vec<u8>, x: u64)
    ensures
        final(out)@ == old(out)@ + u64_le(x),
{
    out.push((x & 0xff) as u8);
    out.push(((x >> 8) & 0xff) as u8);
    out.push(((x >> 16) & 0xff) as u8);
    out.push(((x >> 24) & 0xff) as u8);
    out.push(((x >> 32) & 0xff) as u8);
    out.push(((x >> 40) & 0xff) as u8);
    out.push(((x >> 48) & 0xff) as u8);
    out.push(((x >> 56) & 0xff) as u8);
    proof {
        reveal(u64_le);
        assert(out@ =~= old(out)@ + u64_le(x));
    }
}

/// Reads the machine integer at `pos` from eight little-endian bytes.
pub fn read_u64_le(bytes: &Vec<u8>, pos: usize) -> (x: u64)
    requires
        pos + 8 <= bytes@.len(),
    ensures
        x == le_u64(bytes@.subrange(pos as int, pos as int + 8)),
{
    let n = bytes.len();
    assert(pos + 8 <= n);
    let x = (bytes[pos] as u64) | ((bytes[pos + 1] as u64) << 8) | ((bytes[pos + 2] as u64) << 16)
        | ((bytes[pos + 3] as u64) << 24) | ((bytes[pos + 4] as u64) << 32) | ((bytes[pos
        + 5] as u64) << 40) | ((bytes[pos + 6] as u64) << 48) | ((bytes[pos + 7] as u64) << 56);
    proof {
        reveal(le_u64);
        let s = bytes@.subrange(pos as int, pos as int + 8);
        assert(s[0] == bytes@[pos as int]);
        assert(s[1] == bytes@[pos as int + 1]);
        assert(s[2] == bytes@[pos as int + 2]);
        assert(s[3] == bytes@[pos as int + 3]);
        assert(s[4] == bytes@[pos as int + 4]);
        assert(s[5] == bytes@[pos as int + 5]);
        assert(s[6] == bytes@[pos as int + 6]);
        assert(s[7] == bytes@[pos as int + 7]);
    }
    x
}

/// Appends the encoding of one field value.
pub fn encode_field(v: &FieldValue, out: &mut Vec<u8>)
    ensures
        final(out)@ == old(out)@ + enc_field(v@),
{
    match v {
        FieldValue::Byte(b) => {
            out.push(TAG_BYTE);
            out.push(*b);
            assert(out@ =~= old(out)@ + enc_field(v@));
        },
        FieldValue::Int(x) => {
            out.push(TAG_INT);
            push_u64_le(out, *x);
            assert(out@ =~= old(out)@ + enc_field(v@));
        },
        FieldValue::Bytes(bs) => {
            out.push(TAG_BYTES);
            push_u64_le(out, bs.len() as u64);
            let ghost mid = out@;
            let mut i: usize = 0;
            while i < bs.len()
                invariant
                    i <= bs.len(),
                    out@ == mid + bs@.subrange(0, i as int),
                decreases bs.len() - i,
            {
                out.push(bs[i]);
                assert(out@ =~= mid + bs@.subrange(0, i as int + 1));
                i = i + 1;
            }
            assert(bs@.subrange(0, bs@.len() as int) =~= bs@);
            assert(out@ =~= old(out)@ + enc_field(v@));
        },
        FieldValue::Ints(xs) => {
            out.push(TAG_INTS);
            push_u64_le(out, xs.len() as u64);
            let ghost mid = out@;
            let mut i: usize = 0;
            while i < xs.len()
                invariant
                    i <= xs.len(),
                    out@ == mid + enc_u64s(xs@.subrange(0, i as int)),
                decreases xs.len() - i,
            {
                push_u64_le(out, xs[i]);
                proof {
                    lemma_enc_u64s_push(xs@.subrange(0, i as int), xs@[i as int]);
                    assert(xs@.subrange(0, i as int).push(xs@[i as int]) =~= xs@.subrange(
                        0,
                        i as int + 1,
                    ));
                }
                i = i + 1;
            }
            assert(xs@.subrange(0, xs@.len() as int) =~= xs@);
            assert(out@ =~= old(out)@ + enc_field(v@));
        },
        FieldValue::Texts(ts) => {
            out.push(TAG_TEXTS);
            push_u64_le(out, ts.len() as u64);
            let ghost mid = out@;
            let mut i: usize = 0;
            while i < ts.len()
                invariant
                    i <= ts.len(),
                    out@ == mid + enc_texts(ts.deep_view().subrange(0, i as int)),
                decreases ts.len() - i,
            {
                let t = &ts[i];
                push_u64_le(out, t.len() as u64);
                let ghost mid2 = out@;
                let mut j: usize = 0;
                while j < t.len()
                    invariant
                        j <= t.len(),
                        out@ == mid2 + t@.subrange(0, j as int),
                    decreases t.len() - j,
                {
                    out.push(t[j]);
                    assert(out@ =~= mid2 + t@.subrange(0, j as int + 1));
                    j = j + 1;
                }
                proof {
                    assert(t@.subrange(0, t@.len() as int) =~= t@);
                    assert(ts.deep_view()[i as int] == ts@[i as int].deep_view());
                    assert(ts@[i as int].deep_view() =~= ts@[i as int]@);
                    assert(ts.deep_view()[i as int] == t@);
                    lemma_enc_texts_push(ts.deep_view().subrange(0, i as int), t@);
                    assert(ts.deep_view().subrange(0, i as int).push(ts.deep_view()[i as int])
                        =~= ts.deep_view().subrange(0, i as int + 1));
                    assert(out@ =~= mid + enc_texts(ts.deep_view().subrange(0, i as int + 1)));
                }
                i = i + 1;
            }
            assert(ts.deep_view().subrange(0, ts.deep_view().len() as int) =~= ts.deep_view());
            assert(out@ =~= old(out)@ + enc_field(v@));
        },
        FieldValue::OptInt(o) => match o {
            Option::None => {
                out.push(TAG_OPT_NONE);
                assert(out@ =~= old(out)@ + enc_field(v@));
            },
            Option::Some(x) => {
                out.push(TAG_OPT_SOME);
                push_u64_le(out, *x);
                assert(out@ =~= old(out)@ + enc_field(v@));
            },
        },
    }
}

/// Copies the bytes of the region `start..end`.
fn copy_region(bytes: &Vec<u8>, start: usize, end: usize) -> (r: Vec<u8>)
    requires
        start <= end <= bytes@.len(),
    ensures
        r@ == bytes@.subrange(start as int, end as int),
{
    let mut r: Vec<u8> = Vec::new();
    let mut i: usize = start;
    while i < end
        invariant
            start <= i <= end <= bytes@.len(),
            r@ == bytes@.subrange(start as int, i as int),
        decreases end - i,
    {
        r.push(bytes[i]);
        assert(r@ =~= bytes@.subrange(start as int, i as int + 1));
        i = i + 1;
    }
    r
}

/// Decodes `n` little-endian integers that must fill the region `start..end`
/// exactly.
fn decode_u64s_region(bytes: &Vec<u8>, start: usize, end: usize, n: u64) -> (r: Option<Vec<u64>>)
    requires
        start <= end <= bytes@.len(),
    ensures
        ({
            let s = bytes@.subrange(start as int, end as int);
            match r {
                Option::Some(v) => dec_u64s(s, n as nat) == Option::Some(v@),
                Option::None => dec_u64s(s, n as nat) is None,
            }
        }),
{
    let ghost s = bytes@.subrange(start as int, end as int);
    let mut acc: Vec<u64> = Vec::new();
    let mut off: usize = start;
    let mut i: u64 = 0;
    while i < n
        invariant
            start <= off <= end <= bytes@.len(),
            i <= n,
            acc@.len() == i,
            s == bytes@.subrange(start as int, end as int),
            dec_u64s(s, n as nat) == (match dec_u64s(
                bytes@.subrange(off as int, end as int),
                (n - i) as nat,
            ) {
                Option::Some(rest) => Option::Some(acc@ + rest),
                Option::None => Option::<Seq<u64>>::None,
            }),
        decreases n - i,
    {
        let ghost tail = bytes@.subrange(off as int, end as int);
        if end - off < 8 {
            proof {
                assert(tail.len() < 8);
                assert(dec_u64s(tail, (n - i) as nat) is None);
            }
            return Option::None;
        }
        let x: u64 = read_u64_le(bytes, off);
        proof {
            assert(tail.take(8) =~= bytes@.subrange(off as int, off as int + 8));
            assert(tail.skip(8) =~= bytes@.subrange(off as int + 8, end as int));
            assert(dec_u64s(tail, (n - i) as nat) == (match dec_u64s(
                tail.skip(8),
                (n - i - 1) as nat,
            ) {
                Option::Some(rest) => Option::Some(seq![x] + rest),
                Option::None => Option::<Seq<u64>>::None,
            }));
        }
        let ghost acc0 = acc@;
        acc.push(x);
        proof {
            assert(acc@ =~= acc0.push(x));
            assert forall|rest: Seq<u64>| acc0 + (seq![x] + rest) =~= acc@ + rest by {}
        }
        off = off + 8;
        i = i + 1;
    }
    if off == end {
        proof {
            assert(bytes@.subrange(off as int, end as int).len() == 0);
            assert(dec_u64s(bytes@.subrange(off as int, end as int), 0nat) == Option::Some(
                Seq::<u64>::empty(),
            ));
            assert(acc@ + Seq::<u64>::empty() =~= acc@);
        }
        Option::Some(acc)
    } else {
        proof {
            assert(bytes@.subrange(off as int, end as int).len() > 0);
            assert(dec_u64s(bytes@.subrange(off as int, end as int), 0nat) is None);
        }
        Option::None
    }
}

/// Decodes `n` length-prefixed byte strings that must fill the region
/// `start..end` exactly.
fn decode_texts_region(bytes: &Vec<u8>, start: usize, end: usize, n: u64) -> (r: Option<
    Vec<Vec<u8>>,
>)
    requires
        start <= end <= bytes@.len(),
    ensures
        ({
            let s = bytes@.subrange(start as int, end as int);
            match r {
                Option::Some(v) => dec_texts(s, n as nat) == Option::Some(v.deep_view()),
                Option::None => dec_texts(s, n as nat) is None,
            }
        }),
{
    let ghost s = bytes@.subrange(start as int, end as int);
    let mut acc: Vec<Vec<u8>> = Vec::new();
    let mut off: usize = start;
    let mut i: u64 = 0;
    while i < n
        invariant
            start <= off <= end <= bytes@.len(),
            i <= n,
            acc@.len() == i,
            s == bytes@.subrange(start as int, end as int),
            dec_texts(s, n as nat) == (match dec_texts(
                bytes@.subrange(off as int, end as int),
                (n - i) as nat,
            ) {
                Option::Some(rest) => Option::Some(acc.deep_view() + rest),
                Option::None => Option::<Seq<Seq<u8>>>::None,
            }),
        decreases n - i,
    {
        let ghost tail = bytes@.subrange(off as int, end as int);
        if end - off < 8 {
            proof {
                assert(tail.len() < 8);
                assert(dec_texts(tail, (n - i) as nat) is None);
            }
            return Option::None;
        }
        let l: u64 = read_u64_le(bytes, off);
        proof {
            assert(tail.take(8) =~= bytes@.subrange(off as int, off as int + 8));
        }
        let lrem: usize = end - (off + 8);
        if l > lrem as u64 {
            proof {
                assert(tail.len() - 8 < l as int);
                assert(dec_texts(tail, (n - i) as nat) is None);
            }
            return Option::None;
        }
        let lu: usize = l as usize;
        let t: Vec<u8> = copy_region(bytes, off + 8, off + 8 + lu);
        proof {
            assert(tail.subrange(8, 8 + l as int) =~= bytes@.subrange(
                off as int + 8,
                off as int + 8 + l as int,
            ));
            assert(tail.skip(8 + l as int) =~= bytes@.subrange(
                off as int + 8 + l as int,
                end as int,
            ));
            assert(dec_texts(tail, (n - i) as nat) == (match dec_texts(
                tail.skip(8 + l as int),
                (n - i - 1) as nat,
            ) {
                Option::Some(rest) => Option::Some(seq![t@] + rest),
                Option::None => Option::<Seq<Seq<u8>>>::None,
            }));
        }
        let ghost acc0 = acc.deep_view();
        acc.push(t);
        proof {
            assert(acc.deep_view() =~= acc0.push(t@)) by {
                assert(acc.deep_view().len() == acc0.len() + 1);
                assert forall|j: int| 0 <= j < acc0.len() implies acc.deep_view()[j] == acc0[j] by {
                    assert(acc.deep_view()[j] == acc@[j].deep_view());
                }
                assert(acc.deep_view()[acc0.len() as int] == t.deep_view());
                assert(t.deep_view() =~= t@);
            }
            assert forall|rest: Seq<Seq<u8>>| acc0 + (seq![t@] + rest) =~= acc.deep_view()
                + rest by {}
        }
        off = off + 8 + lu;
        i = i + 1;
    }
    if off == end {
        proof {
            assert(bytes@.subrange(off as int, end as int).len() == 0);
            assert(dec_texts(bytes@.subrange(off as int, end as int), 0nat) == Option::Some(
                Seq::<Seq<u8>>::empty(),
            ));
            assert(acc.deep_view() + Seq::<Seq<u8>>::empty() =~= acc.deep_view());
        }
        Option::Some(acc)
    } else {
        proof {
            assert(bytes@.subrange(off as int, end as int).len() > 0);
            assert(dec_texts(bytes@.subrange(off as int, end as int), 0nat) is None);
        }
        Option::None
    }
}

/// Decodes the field value whose encoding fills the region
/// `pos..pos + len` exactly; `None` on any malformed region.
pub fn decode_field(bytes: &Vec<u8>, pos: usize, len: usize) -> (r: Option<FieldValue>)
    requires
        pos + len <= bytes@.len(),
    ensures
        ({
            let s = bytes@.subrange(pos as int, pos as int + len as int);
            match r {
                Option::Some(v) => dec_field(s) == Option::Some(v@),
                Option::None => dec_field(s) is None,
            }
        }),
{
    let total: usize = bytes.len();
    assert(pos + len <= total);
    let ghost s = bytes@.subrange(pos as int, pos as int + len as int);
    if len < 1 {
        return Option::None;
    }
    let tag: u8 = bytes[pos];
    proof {
        assert(s[0] == tag);
        assert(s.skip(1) =~= bytes@.subrange(pos as int + 1, pos as int + len as int));
    }
    let ghost body = s.skip(1);
    if tag == TAG_BYTE {
        if len == 2 {
            let b: u8 = bytes[pos + 1];
            assert(body[0] == b);
            Option::Some(FieldValue::Byte(b))
        } else {
            Option::None
        }
    } else if tag == TAG_INT {
        if len == 9 {
            let x: u64 = read_u64_le(bytes, pos + 1);
            assert(body =~= bytes@.subrange(pos as int + 1, pos as int + 9));
            Option::Some(FieldValue::Int(x))
        } else {
            Option::None
        }
    } else if tag == TAG_BYTES {
        if len < 9 {
            return Option::None;
        }
        let l: u64 = read_u64_le(bytes, pos + 1);
        proof {
            assert(body.take(8) =~= bytes@.subrange(pos as int + 1, pos as int + 9));
        }
        let rem: usize = len - 9;
        if rem as u64 != l {
            return Option::None;
        }
        let v: Vec<u8> = copy_region(bytes, pos + 9, pos + len);
        proof {
            assert(body.skip(8) =~= bytes@.subrange(pos as int + 9, pos as int + len as int));
        }
        Option::Some(FieldValue::Bytes(v))
    } else if tag == TAG_INTS {
        if len < 9 {
            return Option::None;
        }
        let cnt: u64 = read_u64_le(bytes, pos + 1);
        proof {
            assert(body.take(8) =~= bytes@.subrange(pos as int + 1, pos as int + 9));
            assert(body.skip(8) =~= bytes@.subrange(pos as int + 9, pos as int + len as int));
        }
        match decode_u64s_region(bytes, pos + 9, pos + len, cnt) {
            Option::Some(v) => Option::Some(FieldValue::Ints(v)),
            Option::None => Option::None,
        }
    } else if tag == TAG_TEXTS {
        if len < 9 {
            return Option::None;
        }
        let cnt: u64 = read_u64_le(bytes, pos + 1);
        proof {
            assert(body.take(8) =~= bytes@.subrange(pos as int + 1, pos as int + 9));
            assert(body.skip(8) =~= bytes@.subrange(pos as int + 9, pos as int + len as int));
        }
        match decode_texts_region(bytes, pos + 9, pos + len, cnt) {
            Option::Some(v) => Option::Some(FieldValue::Texts(v)),
            Option::None => Option::None,
        }
    } else if tag == TAG_OPT_NONE {
        if len == 1 {
            Option::Some(FieldValue::OptInt(Option::None))
        } else {
            Option::None
        }
    } else if tag == TAG_OPT_SOME {
        if len == 9 {
            let x: u64 = read_u64_le(bytes, pos + 1);
            assert(body =~= bytes@.subrange(pos as int + 1, pos as int + 9));
            Option::Some(FieldValue::OptInt(Option::Some(x)))
        } else {
            Option::None
        }
    } else {
        Option::None
    }
}

} // verus!
