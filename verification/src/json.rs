//! JSON values, their canonical serialization, and a strict parser.
//!
//! The bridge speaks JSON over byte frames, so the grammar is handled here
//! at the byte level: strings are byte sequences (their UTF-8 validity is
//! checked where the protocol extracts them), numbers are 64-bit integers,
//! and the serializer emits compact documents with a fixed escape set.  The
//! parser accepts whitespace between tokens, the simple escapes, and
//! `\u00XX` escapes for ASCII code points; it rejects fractions, exponents,
//! and anything else outside this grammar.  A rejected document costs the
//! peer one error response, never the connection.

use vstd::prelude::*;

verus! {

broadcast use vstd::std_specs::vec::group_vec_axioms, vstd::seq::group_seq_axioms;

/// A JSON value as the specifications see it.
pub enum JsonV {
    Null,
    Bool(bool),
    Int(i64),
    Str(Seq<u8>),
    Arr(Seq<JsonV>),
    Obj(Seq<(Seq<u8>, JsonV)>),
}

/// A JSON value as executable code builds it.
pub enum Json {
    Null,
    Bool(bool),
    Int(i64),
    Str(Vec<u8>),
    Arr(Vec<Json>),
    Obj(Vec<(Vec<u8>, Json)>),
}

impl Json {
    /// The specification-level value this executable value stands for.
    pub open spec fn v(self) -> JsonV
        decreases self,
    {
        match self {
            Json::Null => JsonV::Null,
            Json::Bool(b) => JsonV::Bool(b),
            Json::Int(i) => JsonV::Int(i),
            Json::Str(s) => JsonV::Str(s@),
            Json::Arr(es) => {
                proof {
                    assert(decreases_to!(self => es));
                    assert(decreases_to!(es => es@));
                }
                JsonV::Arr(seq_v(es@))
            },
            Json::Obj(fs) => {
                proof {
                    assert(decreases_to!(self => fs));
                    assert(decreases_to!(fs => fs@));
                }
                JsonV::Obj(fields_v(fs@))
            },
        }
    }
}

/// The specification-level values of a sequence of executable JSON values.
pub open spec fn seq_v(es: Seq<Json>) -> Seq<JsonV>
    decreases es,
{
    if es.len() == 0 {
        Seq::empty()
    } else {
        seq![es[0].v()] + seq_v(es.drop_first())
    }
}

/// The specification-level values of a sequence of executable members.
pub open spec fn fields_v(fs: Seq<(Vec<u8>, Json)>) -> Seq<(Seq<u8>, JsonV)>
    decreases fs,
{
    if fs.len() == 0 {
        Seq::empty()
    } else {
        proof {
            assert(decreases_to!(fs => fs[0]));
            assert(decreases_to!(fs[0] => fs[0].1));
        }
        seq![(fs[0].0@, fs[0].1.v())] + fields_v(fs.drop_first())
    }
}

/// `seq_v` maps the sequence pointwise.
pub proof fn lemma_seq_v(es: Seq<Json>)
    ensures
        seq_v(es).len() == es.len(),
        forall|i: int| 0 <= i < es.len() ==> seq_v(es)[i] == #[trigger] es[i].v(),
    decreases es.len(),
{
    if es.len() > 0 {
        lemma_seq_v(es.drop_first());
        assert forall|i: int| 0 <= i < es.len() implies seq_v(es)[i] == #[trigger] es[i].v() by {
            if i > 0 {
                assert(seq_v(es)[i] == seq_v(es.drop_first())[i - 1]);
                assert(es.drop_first()[i - 1] == es[i]);
            }
        }
    }
}

/// `fields_v` maps the sequence pointwise.
pub proof fn lemma_fields_v(fs: Seq<(Vec<u8>, Json)>)
    ensures
        fields_v(fs).len() == fs.len(),
        forall|i: int|
            0 <= i < fs.len() ==> fields_v(fs)[i] == (#[trigger] fs[i].0@, fs[i].1.v()),
    decreases fs.len(),
{
    if fs.len() > 0 {
        lemma_fields_v(fs.drop_first());
        assert forall|i: int| 0 <= i < fs.len() implies fields_v(fs)[i] == (
        #[trigger] fs[i].0@,
            fs[i].1.v(),
        ) by {
            if i > 0 {
                assert(fields_v(fs)[i] == fields_v(fs.drop_first())[i - 1]);
                assert(fs.drop_first()[i - 1] == fs[i]);
            }
        }
    }
}

/// One decimal digit as its ASCII byte.
pub open spec fn digit_byte(d: int) -> u8
    recommends
        0 <= d < 10,
{
    (0x30 + d) as u8
}

/// The decimal digits of a natural number.
pub open spec fn dec_digits(n: nat) -> Seq<u8>
    decreases n,
{
    if n < 10 {
        seq![digit_byte(n as int)]
    } else {
        dec_digits(n / 10) + seq![digit_byte((n % 10) as int)]
    }
}

/// The decimal representation of an integer, with a leading minus sign when
/// negative.
pub open spec fn int_bytes(i: int) -> Seq<u8> {
    if i < 0 {
        seq![0x2du8] + dec_digits((-i) as nat)
    } else {
        dec_digits(i as nat)
    }
}

/// The hexadecimal digit for a value below 16, lower case.
pub open spec fn hex_digit(d: int) -> u8
    recommends
        0 <= d < 16,
{
    if d < 10 {
        (0x30 + d) as u8
    } else {
        (0x61 + (d - 10)) as u8
    }
}

/// How one byte of string content is written: the named escapes for the
/// quote, the backslash and the common control characters, `\u00XX` for the
/// remaining control characters, and the byte itself otherwise.
pub open spec fn esc_byte(c: u8) -> Seq<u8> {
    if c == 0x22 {
        seq![0x5cu8, 0x22u8]
    } else if c == 0x5c {
        seq![0x5cu8, 0x5cu8]
    } else if c == 0x08 {
        seq![0x5cu8, 0x62u8]
    } else if c == 0x09 {
        seq![0x5cu8, 0x74u8]
    } else if c == 0x0a {
        seq![0x5cu8, 0x6eu8]
    } else if c == 0x0c {
        seq![0x5cu8, 0x66u8]
    } else if c == 0x0d {
        seq![0x5cu8, 0x72u8]
    } else if c < 0x20 {
        seq![0x5cu8, 0x75u8, 0x30u8, 0x30u8, hex_digit(c as int / 16), hex_digit(c as int % 16)]
    } else {
        seq![c]
    }
}

/// Escaped string content, byte by byte.
pub open spec fn esc(s: Seq<u8>) -> Seq<u8>
    decreases s.len(),
{
    if s.len() == 0 {
        Seq::empty()
    } else {
        esc_byte(s[0]) + esc(s.drop_first())
    }
}

/// The canonical serialization of a JSON value: compact, fields in order,
/// strings escaped as [`esc`] does.
pub open spec fn ser(j: JsonV) -> Seq<u8>
    decreases j, 1int,
{
    match j {
        JsonV::Null => seq![0x6eu8, 0x75u8, 0x6cu8, 0x6cu8],
        JsonV::Bool(b) => if b {
            seq![0x74u8, 0x72u8, 0x75u8, 0x65u8]
        } else {
            seq![0x66u8, 0x61u8, 0x6cu8, 0x73u8, 0x65u8]
        },
        JsonV::Int(i) => int_bytes(i as int),
        JsonV::Str(s) => seq![0x22u8] + esc(s) + seq![0x22u8],
        JsonV::Arr(es) => seq![0x5bu8] + ser_elems(es) + seq![0x5du8],
        JsonV::Obj(fs) => seq![0x7bu8] + ser_fields(fs) + seq![0x7du8],
    }
}

/// The comma-separated serialization of array elements.
pub open spec fn ser_elems(es: Seq<JsonV>) -> Seq<u8>
    decreases es, 0int,
{
    if es.len() == 0 {
        Seq::empty()
    } else if es.len() == 1 {
        ser(es[0])
    } else {
        ser(es[0]) + seq![0x2cu8] + ser_elems(es.drop_first())
    }
}

/// The comma-separated serialization of object members.
pub open spec fn ser_fields(fs: Seq<(Seq<u8>, JsonV)>) -> Seq<u8>
    decreases fs, 0int,
{
    if fs.len() == 0 {
        Seq::empty()
    } else if fs.len() == 1 {
        ser_field(fs[0])
    } else {
        ser_field(fs[0]) + seq![0x2cu8] + ser_fields(fs.drop_first())
    }
}

/// One object member: quoted key, colon, value.
pub open spec fn ser_field(f: (Seq<u8>, JsonV)) -> Seq<u8>
    decreases f, 1int,
{
    seq![0x22u8] + esc(f.0) + seq![0x22u8, 0x3au8] + ser(f.1)
}

/// Appending an element extends the serialized list by a separator and the
/// element's serialization.
pub proof fn lemma_ser_elems_snoc(es: Seq<JsonV>, e: JsonV)
    ensures
        ser_elems(es.push(e)) == if es.len() == 0 {
            ser(e)
        } else {
            ser_elems(es) + seq![0x2cu8] + ser(e)
        },
    decreases es.len(),
{
    if es.len() == 0 {
        assert(es.push(e)[0] == e);
        assert(ser_elems(es.push(e)) == ser(e));
    } else {
        let p = es.push(e);
        assert(p[0] == es[0]);
        assert(p.drop_first() =~= es.drop_first().push(e));
        lemma_ser_elems_snoc(es.drop_first(), e);
        if es.len() == 1 {
            assert(ser_elems(es) == ser(es[0]));
        } else {
            assert(ser_elems(es) + seq![0x2cu8] + ser(e) =~= ser(es[0]) + seq![0x2cu8] + (
            ser_elems(es.drop_first()) + seq![0x2cu8] + ser(e)));
        }
    }
}

/// Appending a member extends the serialized object body the same way.
pub proof fn lemma_ser_fields_snoc(fs: Seq<(Seq<u8>, JsonV)>, f: (Seq<u8>, JsonV))
    ensures
        ser_fields(fs.push(f)) == if fs.len() == 0 {
            ser_field(f)
        } else {
            ser_fields(fs) + seq![0x2cu8] + ser_field(f)
        },
    decreases fs.len(),
{
    if fs.len() == 0 {
        assert(fs.push(f)[0] == f);
        assert(ser_fields(fs.push(f)) == ser_field(f));
    } else {
        let p = fs.push(f);
        assert(p[0] == fs[0]);
        assert(p.drop_first() =~= fs.drop_first().push(f));
        lemma_ser_fields_snoc(fs.drop_first(), f);
        if fs.len() == 1 {
            assert(ser_fields(fs) == ser_field(fs[0]));
        } else {
            assert(ser_fields(fs) + seq![0x2cu8] + ser_field(f) =~= ser_field(fs[0]) + seq![
                0x2cu8,
            ] + (ser_fields(fs.drop_first()) + seq![0x2cu8] + ser_field(f)));
        }
    }
}

/// Escaping distributes over appending one byte.
pub proof fn lemma_esc_snoc(s: Seq<u8>, c: u8)
    ensures
        esc(s.push(c)) == esc(s) + esc_byte(c),
    decreases s.len(),
{
    if s.len() == 0 {
        let p = s.push(c);
        assert(p.len() == 1);
        assert(p[0] == c);
        assert(p.drop_first() =~= Seq::<u8>::empty());
        assert(esc(Seq::<u8>::empty()) == Seq::<u8>::empty());
        assert(esc(p) == esc_byte(c) + esc(Seq::<u8>::empty()));
        assert(esc(p) =~= esc_byte(c));
        assert(esc(s) == Seq::<u8>::empty());
        assert(esc(s) + esc_byte(c) =~= esc_byte(c));
    } else {
        let p = s.push(c);
        assert(p[0] == s[0]);
        assert(p.drop_first() =~= s.drop_first().push(c));
        lemma_esc_snoc(s.drop_first(), c);
        assert(esc(p) == esc_byte(s[0]) + esc(s.drop_first().push(c)));
        assert(esc(s.push(c)) =~= esc(s) + esc_byte(c));
    }
}

/// Writes the decimal digits of `n`.
fn write_digits(n: u64, out: &mut Vec<u8>)
    ensures
        final (out)@ == old(out)@ + dec_digits(n as nat),
    decreases n,
{
    if n < 10 {
        out.push(0x30 + n as u8);
        assert(final (out)@ =~= old(out)@ + dec_digits(n as nat));
    } else {
        write_digits(n / 10, out);
        out.push(0x30 + (n % 10) as u8);
        assert(final (out)@ =~= old(out)@ + dec_digits(n as nat));
    }
}

/// Writes the decimal representation of `i`, sign included.
fn write_int(i: i64, out: &mut Vec<u8>)
    ensures
        final (out)@ == old(out)@ + int_bytes(i as int),
{
    if i < 0 {
        out.push(0x2d);
        let m: u64 = (-(i as i128)) as u64;
        assert(m as nat == (-(i as int)) as nat);
        write_digits(m, out);
        assert(final (out)@ =~= old(out)@ + int_bytes(i as int));
    } else {
        write_digits(i as u64, out);
    }
}

/// The hexadecimal digit for a value below 16, lower case.
fn hex_digit_exec(d: u8) -> (r: u8)
    requires
        d < 16,
    ensures
        r == hex_digit(d as int),
{
    if d < 10 {
        0x30 + d
    } else {
        0x61 + (d - 10)
    }
}

/// Writes one byte of string content, escaped as the grammar requires.
fn write_esc_byte(c: u8, out: &mut Vec<u8>)
    ensures
        final (out)@ == old(out)@ + esc_byte(c),
{
    if c == 0x22 {
        out.push(0x5c);
        out.push(0x22);
    } else if c == 0x5c {
        out.push(0x5c);
        out.push(0x5c);
    } else if c == 0x08 {
        out.push(0x5c);
        out.push(0x62);
    } else if c == 0x09 {
        out.push(0x5c);
        out.push(0x74);
    } else if c == 0x0a {
        out.push(0x5c);
        out.push(0x6e);
    } else if c == 0x0c {
        out.push(0x5c);
        out.push(0x66);
    } else if c == 0x0d {
        out.push(0x5c);
        out.push(0x72);
    } else if c < 0x20 {
        out.push(0x5c);
        out.push(0x75);
        out.push(0x30);
        out.push(0x30);
        out.push(hex_digit_exec(c / 16));
        out.push(hex_digit_exec(c % 16));
    } else {
        out.push(c);
    }
    assert(final (out)@ =~= old(out)@ + esc_byte(c));
}

/// Writes escaped string content.
fn write_esc(s: &Vec<u8>, out: &mut Vec<u8>)
    ensures
        final (out)@ == old(out)@ + esc(s@),
{
    let mut i: usize = 0;
    while i < s.len()
        invariant
            i <= s@.len(),
            out@ == old(out)@ + esc(s@.take(i as int)),
        decreases s@.len() - i,
    {
        write_esc_byte(s[i], out);
        proof {
            lemma_esc_snoc(s@.take(i as int), s@[i as int]);
            assert(s@.take(i as int).push(s@[i as int]) =~= s@.take(i + 1));
        }
        i = i + 1;
    }
    proof {
        assert(s@.take(s@.len() as int) =~= s@);
    }
}

/// Writes the canonical serialization of `j` onto `out`.
#[verifier::loop_isolation(false)]
#[verifier::rlimit(60)]
pub fn write_json(j: &Json, out: &mut Vec<u8>)
    ensures
        final (out)@ == old(out)@ + ser(j.v()),
    decreases *j,
{
    match j {
        Json::Null => {
            out.push(0x6e);
            out.push(0x75);
            out.push(0x6c);
            out.push(0x6c);
            assert(final (out)@ =~= old(out)@ + ser(j.v()));
        },
        Json::Bool(b) => {
            if *b {
                out.push(0x74);
                out.push(0x72);
                out.push(0x75);
                out.push(0x65);
            } else {
                out.push(0x66);
                out.push(0x61);
                out.push(0x6c);
                out.push(0x73);
                out.push(0x65);
            }
            assert(final (out)@ =~= old(out)@ + ser(j.v()));
        },
        Json::Int(i) => {
            write_int(*i, out);
        },
        Json::Str(s) => {
            out.push(0x22);
            write_esc(s, out);
            out.push(0x22);
            assert(final (out)@ =~= old(out)@ + ser(j.v()));
        },
        Json::Arr(es) => {
            out.push(0x5b);
            let ghost evs = seq_v(es@);
            proof {
                lemma_seq_v(es@);
            }
            let mut i: usize = 0;
            while i < es.len()
                invariant
                    i <= es@.len(),
                    evs == seq_v(es@),
                    evs.len() == es@.len(),
                    forall|k: int| 0 <= k < es@.len() ==> evs[k] == #[trigger] es@[k].v(),
                    out@ == old(out)@ + seq![0x5bu8] + ser_elems(evs.take(i as int)),
                decreases es@.len() - i,
    {
                if i > 0 {
                    out.push(0x2c);
                }
                let ghost mid = out@;
                proof {
                    assert(*j == Json::Arr(*es));
                    assert(decreases_to!(Json::Arr(*es) => *es));
                    assert(decreases_to!(*es => es@[i as int]));
                }
                write_json(&es[i], out);
                proof {
                    lemma_ser_elems_snoc(evs.take(i as int), evs[i as int]);
                    assert(evs.take(i as int).push(evs[i as int]) =~= evs.take(i + 1));
                    assert(out@ == mid + ser(evs[i as int]));
                    assert(out@ =~= old(out)@ + seq![0x5bu8] + ser_elems(evs.take(i + 1)));
                }
                i = i + 1;
            }
            out.push(0x5d);
            proof {
                assert(evs.take(evs.len() as int) =~= evs);
                assert(final (out)@ =~= old(out)@ + ser(j.v()));
            }
        },
        Json::Obj(fs) => {
            out.push(0x7b);
            let ghost fvs = fields_v(fs@);
            proof {
                lemma_fields_v(fs@);
            }
            let mut i: usize = 0;
            while i < fs.len()
                invariant
                    i <= fs@.len(),
                    fvs == fields_v(fs@),
                    fvs.len() == fs@.len(),
                    forall|k: int|
                        0 <= k < fs@.len() ==> fvs[k] == (#[trigger] fs@[k].0@, fs@[k].1.v()),
                    out@ == old(out)@ + seq![0x7bu8] + ser_fields(fvs.take(i as int)),
                decreases fs@.len() - i,
            {
                if i > 0 {
                    out.push(0x2c);
                }
                let ghost mid = out@;
                out.push(0x22);
                write_esc(&fs[i].0, out);
                out.push(0x22);
                out.push(0x3a);
                proof {
                    assert(*j == Json::Obj(*fs));
                    assert(decreases_to!(Json::Obj(*fs) => *fs));
                    assert(decreases_to!(*fs => fs@[i as int]));
                    assert(decreases_to!(fs@[i as int] => fs@[i as int].1));
                }
                write_json(&fs[i].1, out);
                proof {
                    lemma_ser_fields_snoc(fvs.take(i as int), fvs[i as int]);
                    assert(fvs.take(i as int).push(fvs[i as int]) =~= fvs.take(i + 1));
                    assert(out@ == mid + seq![0x22u8] + esc(fs@[i as int].0@) + seq![0x22u8]
                        + seq![0x3au8] + ser(fs@[i as int].1.v()));
                    assert(out@ =~= mid + ser_field(fvs[i as int]));
                    assert(out@ =~= old(out)@ + seq![0x7bu8] + ser_fields(fvs.take(i + 1)));
                }
                i = i + 1;
            }
            out.push(0x7d);
            proof {
                assert(fvs.take(fvs.len() as int) =~= fvs);
                assert(final (out)@ =~= old(out)@ + ser(j.v()));
            }
        },
    }
}

/// The canonical serialization of `j`, as a fresh buffer.
pub fn to_json_bytes(j: &Json) -> (r: Vec<u8>)
    ensures
        r@ == ser(j.v()),
{
    let mut out: Vec<u8> = Vec::new();
    write_json(j, &mut out);
    out
}


/// JSON insignificant whitespace.
pub open spec fn is_ws(c: u8) -> bool {
    c == 0x20 || c == 0x09 || c == 0x0a || c == 0x0d
}

/// An ASCII decimal digit.
pub open spec fn is_digit(c: u8) -> bool {
    0x30 <= c <= 0x39
}

/// The first position at or after `i` holding no whitespace.
pub open spec fn ws_end(s: Seq<u8>, i: int) -> int
    decreases s.len() - i,
{
    if 0 <= i < s.len() && is_ws(s[i]) {
        ws_end(s, i + 1)
    } else {
        i
    }
}

/// Bounds of [`ws_end`]: it never moves backwards nor past the end.
pub proof fn lemma_ws_end(s: Seq<u8>, i: int)
    ensures
        i <= ws_end(s, i),
        i <= s.len() ==> ws_end(s, i) <= s.len(),
    decreases s.len() - i,
{
    if 0 <= i < s.len() && is_ws(s[i]) {
        lemma_ws_end(s, i + 1);
    }
}

/// The first position at or after `i` holding no decimal digit.
pub open spec fn digits_end(s: Seq<u8>, i: int) -> int
    decreases s.len() - i,
{
    if 0 <= i < s.len() && is_digit(s[i]) {
        digits_end(s, i + 1)
    } else {
        i
    }
}

/// Bounds of [`digits_end`].
pub proof fn lemma_digits_end(s: Seq<u8>, i: int)
    ensures
        i <= digits_end(s, i),
        i <= s.len() ==> digits_end(s, i) <= s.len(),
    decreases s.len() - i,
{
    if 0 <= i < s.len() && is_digit(s[i]) {
        lemma_digits_end(s, i + 1);
    }
}

/// The value of the digit run `s[i..j)`, most significant first.
pub open spec fn digits_val(s: Seq<u8>, i: int, j: int) -> int
    decreases j - i,
{
    if i < j {
        digits_val(s, i, j - 1) * 10 + (s[j - 1] - 0x30)
    } else {
        0
    }
}

/// What each named escape character stands for.
pub open spec fn unescape_byte(e: u8) -> Option<u8> {
    if e == 0x22 {
        Some(0x22u8)
    } else if e == 0x5c {
        Some(0x5cu8)
    } else if e == 0x2f {
        Some(0x2fu8)
    } else if e == 0x62 {
        Some(0x08u8)
    } else if e == 0x66 {
        Some(0x0cu8)
    } else if e == 0x6e {
        Some(0x0au8)
    } else if e == 0x72 {
        Some(0x0du8)
    } else if e == 0x74 {
        Some(0x09u8)
    } else {
        None
    }
}

/// The value of one hexadecimal digit, either case.
pub open spec fn hex_val(c: u8) -> Option<int> {
    if 0x30 <= c <= 0x39 {
        Some((c - 0x30) as int)
    } else if 0x61 <= c <= 0x66 {
        Some((c - 0x61 + 10) as int)
    } else if 0x41 <= c <= 0x46 {
        Some((c - 0x41 + 10) as int)
    } else {
        None
    }
}

/// Parses string content from just after the opening quote up to and over
/// the closing quote.  Returns the unescaped content and the position after
/// the closing quote.  `\uXXXX` escapes are accepted for ASCII code points
/// only; raw control bytes are refused, everything else passes through.
pub open spec fn parse_string(s: Seq<u8>, i: int) -> Option<(Seq<u8>, int)>
    decreases s.len() - i,
{
    if !(0 <= i < s.len()) {
        None
    } else {
        let c = s[i];
        if c == 0x22 {
            Some((Seq::empty(), i + 1))
        } else if c == 0x5c {
            if i + 1 < s.len() {
                let e = s[i + 1];
                if e == 0x75 {
                    if i + 6 <= s.len() {
                        match (hex_val(s[i + 2]), hex_val(s[i + 3]), hex_val(s[i + 4]), hex_val(
                            s[i + 5],
                        )) {
                            (Some(h0), Some(h1), Some(h2), Some(h3)) => {
                                let v = h0 * 4096 + h1 * 256 + h2 * 16 + h3;
                                if v < 0x80 {
                                    match parse_string(s, i + 6) {
                                        Some((rest, j)) => Some((seq![v as u8] + rest, j)),
                                        None => None,
                                    }
                                } else {
                                    None
                                }
                            },
                            _ => None,
                        }
                    } else {
                        None
                    }
                } else {
                    match unescape_byte(e) {
                        Some(b) => match parse_string(s, i + 2) {
                            Some((rest, j)) => Some((seq![b] + rest, j)),
                            None => None,
                        },
                        None => None,
                    }
                }
            } else {
                None
            }
        } else if c < 0x20 {
            None
        } else {
            match parse_string(s, i + 1) {
                Some((rest, j)) => Some((seq![c] + rest, j)),
                None => None,
            }
        }
    }
}

/// Parses a number at `i`: an optional minus sign and a digit run without a
/// leading zero, within the 64-bit signed range.  Fractions and exponents
/// are outside the grammar.
pub open spec fn parse_number(s: Seq<u8>, i: int) -> Option<(JsonV, int)>
    recommends
        0 <= i < s.len(),
{
    let neg = s[i] == 0x2d;
    let d0 = if neg {
        i + 1
    } else {
        i
    };
    let j = digits_end(s, d0);
    if j == d0 {
        None
    } else if s[d0] == 0x30 && j > d0 + 1 {
        None
    } else {
        let mag = digits_val(s, d0, j);
        let v: int = if neg {
            -mag
        } else {
            mag
        };
        if -0x8000000000000000 <= v <= 0x7fffffffffffffff {
            Some((JsonV::Int(v as i64), j))
        } else {
            None
        }
    }
}

/// Parses one JSON value starting exactly at `i` (no leading whitespace).
/// Returns the value and the position just after it.
pub open spec fn parse_value(s: Seq<u8>, i: int) -> Option<(JsonV, int)>
    decreases s.len() - i, 0int,
{
    if !(0 <= i < s.len()) {
        None
    } else {
        let c = s[i];
        if c == 0x6e {
            if i + 4 <= s.len() && s[i + 1] == 0x75 && s[i + 2] == 0x6c && s[i + 3] == 0x6c {
                Some((JsonV::Null, i + 4))
            } else {
                None
            }
        } else if c == 0x74 {
            if i + 4 <= s.len() && s[i + 1] == 0x72 && s[i + 2] == 0x75 && s[i + 3] == 0x65 {
                Some((JsonV::Bool(true), i + 4))
            } else {
                None
            }
        } else if c == 0x66 {
            if i + 5 <= s.len() && s[i + 1] == 0x61 && s[i + 2] == 0x6c && s[i + 3] == 0x73 && s[i
                + 4] == 0x65 {
                Some((JsonV::Bool(false), i + 5))
            } else {
                None
            }
        } else if c == 0x22 {
            match parse_string(s, i + 1) {
                Some((cs, j)) => Some((JsonV::Str(cs), j)),
                None => None,
            }
        } else if c == 0x2d || is_digit(c) {
            parse_number(s, i)
        } else if c == 0x5b {
            let k = ws_end(s, i + 1);
            if k < s.len() && s[k] == 0x5d {
                Some((JsonV::Arr(Seq::empty()), k + 1))
            } else {
                match parse_elems(s, i + 1) {
                    Some((es, j)) => Some((JsonV::Arr(es), j)),
                    None => None,
                }
            }
        } else if c == 0x7b {
            let k = ws_end(s, i + 1);
            if k < s.len() && s[k] == 0x7d {
                Some((JsonV::Obj(Seq::empty()), k + 1))
            } else {
                match parse_members(s, i + 1) {
                    Some((fs, j)) => Some((JsonV::Obj(fs), j)),
                    None => None,
                }
            }
        } else {
            None
        }
    }
}

/// Parses the elements of a non-empty array from just after the opening
/// bracket (or a separating comma) up to and over the closing bracket.
pub open spec fn parse_elems(s: Seq<u8>, i: int) -> Option<(Seq<JsonV>, int)>
    decreases s.len() - i, 1int,
{
    if !(0 <= i <= s.len()) {
        None
    } else {
        let k = {
            proof {
                lemma_ws_end(s, i);
            }
            ws_end(s, i)
        };
        match parse_value(s, k) {
            None => None,
            Some((v, m)) => {
                if m <= k || m > s.len() {
                    None
                } else {
                    let k2 = {
                        proof {
                            lemma_ws_end(s, m);
                        }
                        ws_end(s, m)
                    };
                    if k2 < s.len() && s[k2] == 0x2c {
                        match parse_elems(s, k2 + 1) {
                            Some((rest, j)) => Some((seq![v] + rest, j)),
                            None => None,
                        }
                    } else if k2 < s.len() && s[k2] == 0x5d {
                        Some((seq![v], k2 + 1))
                    } else {
                        None
                    }
                }
            },
        }
    }
}

/// Parses the members of a non-empty object from just after the opening
/// brace (or a separating comma) up to and over the closing brace.
pub open spec fn parse_members(s: Seq<u8>, i: int) -> Option<(Seq<(Seq<u8>, JsonV)>, int)>
    decreases s.len() - i, 1int,
{
    if !(0 <= i <= s.len()) {
        None
    } else {
        let k = {
            proof {
                lemma_ws_end(s, i);
            }
            ws_end(s, i)
        };
        if k < s.len() && s[k] == 0x22 {
            match parse_string(s, k + 1) {
                None => None,
                Some((key, m)) => {
                    if m <= k + 1 || m > s.len() {
                        None
                    } else {
                        let c = {
                            proof {
                                lemma_ws_end(s, m);
                            }
                            ws_end(s, m)
                        };
                        if c < s.len() && s[c] == 0x3a {
                            let vs = {
                                proof {
                                    lemma_ws_end(s, c + 1);
                                }
                                ws_end(s, c + 1)
                            };
                            match parse_value(s, vs) {
                                None => None,
                                Some((v, m2)) => {
                                    if m2 <= vs || m2 > s.len() {
                                        None
                                    } else {
                                        let k2 = {
                                            proof {
                                                lemma_ws_end(s, m2);
                                            }
                                            ws_end(s, m2)
                                        };
                                        if k2 < s.len() && s[k2] == 0x2c {
                                            match parse_members(s, k2 + 1) {
                                                Some((rest, j)) => Some(
                                                    (seq![(key, v)] + rest, j),
                                                ),
                                                None => None,
                                            }
                                        } else if k2 < s.len() && s[k2] == 0x7d {
                                            Some((seq![(key, v)], k2 + 1))
                                        } else {
                                            None
                                        }
                                    }
                                },
                            }
                        } else {
                            None
                        }
                    }
                },
            }
        } else {
            None
        }
    }
}

/// Parses one whole document: a single value, optionally surrounded by
/// whitespace, with nothing after it.
pub open spec fn json_parse(s: Seq<u8>) -> Option<JsonV> {
    let i = ws_end(s, 0);
    match parse_value(s, i) {
        None => None,
        Some((v, j)) => if ws_end(s, j) == s.len() {
            Some(v)
        } else {
            None
        },
    }
}


/// Executable counterpart of [`ws_end`].
fn ws_end_exec(s: &Vec<u8>, i: usize) -> (r: usize)
    ensures
        r as int == ws_end(s@, i as int),
        i <= r,
        i <= s@.len() ==> r <= s@.len(),
{
    let mut r = i;
    while r < s.len() && is_ws_exec(s[r])
        invariant
            i <= r,
            r <= s@.len() || r == i,
            ws_end(s@, i as int) == ws_end(s@, r as int),
        decreases s@.len() - r,
    {
        r = r + 1;
    }
    r
}

/// Executable counterpart of [`is_ws`].
fn is_ws_exec(c: u8) -> (r: bool)
    ensures
        r == is_ws(c),
{
    c == 0x20 || c == 0x09 || c == 0x0a || c == 0x0d
}

/// Executable counterpart of [`is_digit`].
fn is_digit_exec(c: u8) -> (r: bool)
    ensures
        r == is_digit(c),
{
    0x30 <= c && c <= 0x39
}

/// Executable counterpart of [`unescape_byte`].
fn unescape_byte_exec(e: u8) -> (r: Option<u8>)
    ensures
        r == unescape_byte(e),
{
    if e == 0x22 {
        Some(0x22)
    } else if e == 0x5c {
        Some(0x5c)
    } else if e == 0x2f {
        Some(0x2f)
    } else if e == 0x62 {
        Some(0x08)
    } else if e == 0x66 {
        Some(0x0c)
    } else if e == 0x6e {
        Some(0x0a)
    } else if e == 0x72 {
        Some(0x0d)
    } else if e == 0x74 {
        Some(0x09)
    } else {
        None
    }
}

/// Executable counterpart of [`hex_val`], as a byte value.
fn hex_val_exec(c: u8) -> (r: Option<u8>)
    ensures
        match r {
            Some(v) => hex_val(c) == Some(v as int) && v < 16,
            None => hex_val(c) is None,
        },
{
    if 0x30 <= c && c <= 0x39 {
        Some(c - 0x30)
    } else if 0x61 <= c && c <= 0x66 {
        Some(c - 0x61 + 10)
    } else if 0x41 <= c && c <= 0x46 {
        Some(c - 0x41 + 10)
    } else {
        None
    }
}

/// Executable counterpart of [`parse_string`].
fn p_string(s: &Vec<u8>, i: usize) -> (r: Option<(Vec<u8>, usize)>)
    requires
        i <= s@.len(),
    ensures
        match (r, parse_string(s@, i as int)) {
            (Some(p), Some(sp)) => p.0@ == sp.0 && p.1 as int == sp.1,
            (None, None) => true,
            _ => false,
        },
{
    let mut acc: Vec<u8> = Vec::new();
    let mut p: usize = i;
    loop
        invariant
            i <= p <= s@.len(),
            parse_string(s@, i as int) == (match parse_string(s@, p as int) {
                Some((rest, j)) => Some((acc@ + rest, j)),
                None => None::<(Seq<u8>, int)>,
            }),
        decreases s@.len() - p,
    {
        if p >= s.len() {
            return None;
        }
        let c = s[p];
        if c == 0x22 {
            proof {
                assert(acc@ + Seq::<u8>::empty() =~= acc@);
            }
            return Some((acc, p + 1));
        } else if c == 0x5c {
            if p + 1 >= s.len() {
                return None;
            }
            let e = s[p + 1];
            if e == 0x75 {
                if s.len() - p < 6 {
                    return None;
                }
                let h0 = hex_val_exec(s[p + 2]);
                let h1 = hex_val_exec(s[p + 3]);
                let h2 = hex_val_exec(s[p + 4]);
                let h3 = hex_val_exec(s[p + 5]);
                match (h0, h1, h2, h3) {
                    (Some(a), Some(b), Some(cc), Some(d)) => {
                        let v: u32 = a as u32 * 4096 + b as u32 * 256 + cc as u32 * 16 + d as u32;
                        if v >= 0x80 {
                            return None;
                        }
                        let ghost before = acc@;
                        acc.push(v as u8);
                        proof {
                            assert(acc@ =~= before + seq![v as u8]);
                            if let Some((rest, jj)) = parse_string(s@, p + 6) {
                                vstd::seq_lib::lemma_concat_associative(
                                    before,
                                    seq![v as u8],
                                    rest,
                                );
                            }
                        }
                        p = p + 6;
                    },
                    _ => {
                        return None;
                    },
                }
            } else {
                match unescape_byte_exec(e) {
                    Some(b) => {
                        let ghost before = acc@;
                        acc.push(b);
                        proof {
                            assert(acc@ =~= before + seq![b]);
                            if let Some((rest, jj)) = parse_string(s@, p + 2) {
                                vstd::seq_lib::lemma_concat_associative(before, seq![b], rest);
                            }
                        }
                        p = p + 2;
                    },
                    None => {
                        return None;
                    },
                }
            }
        } else if c < 0x20 {
            return None;
        } else {
            let ghost before = acc@;
            acc.push(c);
            proof {
                assert(acc@ =~= before + seq![c]);
                if let Some((rest, jj)) = parse_string(s@, p + 1) {
                    vstd::seq_lib::lemma_concat_associative(before, seq![c], rest);
                }
            }
            p = p + 1;
        }
    }
}

/// Ten raised to a small power.
pub open spec fn pow10(k: nat) -> int
    decreases k,
{
    if k == 0 {
        1
    } else {
        10 * pow10((k - 1) as nat)
    }
}

/// A digit run's value is bounded by a power of ten in its length.
proof fn lemma_digits_val_upper(s: Seq<u8>, i: int, j: int)
    requires
        i <= j,
        forall|k: int| i <= k < j ==> is_digit(#[trigger] s[k]),
    ensures
        0 <= digits_val(s, i, j) < pow10((j - i) as nat),
    decreases j - i,
{
    if i < j {
        lemma_digits_val_upper(s, i, j - 1);
    }
}

/// A digit run starting with a nonzero digit is at least the power of ten
/// one below its length.
proof fn lemma_digits_val_lower(s: Seq<u8>, i: int, j: int)
    requires
        i < j,
        forall|k: int| i <= k < j ==> is_digit(#[trigger] s[k]),
        s[i] != 0x30,
    ensures
        digits_val(s, i, j) >= pow10((j - i - 1) as nat),
    decreases j - i,
{
    if i < j - 1 {
        lemma_digits_val_lower(s, i, j - 1);
        lemma_digits_val_upper(s, i, j - 1);
        assert(is_digit(s[j - 1]));
        assert(digits_val(s, i, j) == digits_val(s, i, j - 1) * 10 + (s[j - 1] - 0x30));
        assert(digits_val(s, i, j - 1) * 10 >= pow10((j - i - 2) as nat) * 10) by (nonlinear_arith)
            requires
                digits_val(s, i, j - 1) >= pow10((j - i - 2) as nat),
        ;
        assert(pow10((j - i - 1) as nat) == 10 * pow10((j - i - 2) as nat));
    } else {
        assert(is_digit(s[i]));
        assert(digits_val(s, i, j) == digits_val(s, i, i) * 10 + (s[i] - 0x30));
        assert(digits_val(s, i, i) == 0);
        assert(pow10(0) == 1);
    }
}

/// Powers of ten do not decrease.
proof fn lemma_pow10_mono(a: nat, b: nat)
    requires
        a <= b,
    ensures
        pow10(a) <= pow10(b),
        pow10(a) >= 1,
    decreases b,
{
    if b > 0 {
        if a == b {
            lemma_pow10_mono((a - 1) as nat, (b - 1) as nat);
        } else {
            lemma_pow10_mono(a, (b - 1) as nat);
        }
    }
}

/// Every byte before [`digits_end`] is a digit.
proof fn lemma_digits_end_digits(s: Seq<u8>, i: int)
    ensures
        forall|k: int| i <= k < digits_end(s, i) ==> is_digit(#[trigger] s[k]),
    decreases s.len() - i,
{
    if 0 <= i < s.len() && is_digit(s[i]) {
        lemma_digits_end_digits(s, i + 1);
    }
}

/// Executable counterpart of [`parse_number`].
#[verifier::loop_isolation(false)]
fn p_number(s: &Vec<u8>, i: usize) -> (r: Option<(Json, usize)>)
    requires
        i < s@.len(),
        s@[i as int] == 0x2d || is_digit(s@[i as int]),
    ensures
        match (r, parse_number(s@, i as int)) {
            (Some(p), Some(sp)) => p.0.v() == sp.0 && p.1 as int == sp.1,
            (None, None) => true,
            _ => false,
        },
{
    let neg = s[i] == 0x2d;
    assert(i < s.len());
    let d0: usize = if neg {
        i + 1
    } else {
        i
    };
    let mut j = d0;
    while j < s.len() && is_digit_exec(s[j])
        invariant
            d0 <= j,
            j <= s@.len() || j == d0,
            digits_end(s@, d0 as int) == digits_end(s@, j as int),
        decreases s@.len() - j,
    {
        j = j + 1;
    }
    if j == d0 {
        return None;
    }
    if s[d0] == 0x30 && j > d0 + 1 {
        return None;
    }
    proof {
        lemma_digits_end_digits(s@, d0 as int);
        lemma_digits_val_upper(s@, d0 as int, j as int);
    }
    if j - d0 > 19 {
        proof {
            lemma_digits_val_lower(s@, d0 as int, j as int);
            lemma_pow10_mono(19, (j - d0 - 1) as nat);
            assert(pow10(19) == 10000000000000000000) by {
                reveal_with_fuel(pow10, 20);
            }
        }
        return None;
    }
    let mut acc: u64 = 0;
    let mut p = d0;
    while p < j
        invariant
            d0 <= p <= j,
            acc == digits_val(s@, d0 as int, p as int),
            acc < pow10((p - d0) as nat),
        decreases j - p,
    {
        proof {
            lemma_pow10_mono((p - d0 + 1) as nat, 19);
            assert(pow10(19) == 10000000000000000000) by {
                reveal_with_fuel(pow10, 20);
            }
        }
        acc = acc * 10 + (s[p] - 0x30) as u64;
        p = p + 1;
    }
    if neg {
        if acc > 0x8000000000000000 {
            return None;
        }
        let v: i64 = if acc == 0x8000000000000000 {
            i64::MIN
        } else {
            -(acc as i64)
        };
        Some((Json::Int(v), j))
    } else {
        if acc > 0x7fffffffffffffff {
            return None;
        }
        Some((Json::Int(acc as i64), j))
    }
}


/// `seq_v` of a vector with a value pushed at the front.
proof fn lemma_seq_v_cons(x: Json, es: Seq<Json>)
    ensures
        seq_v(es.insert(0, x)) == seq![x.v()] + seq_v(es),
{
    let p = es.insert(0, x);
    assert(p.drop_first() =~= es);
    assert(p[0] == x);
    assert(seq_v(p) == seq![p[0].v()] + seq_v(p.drop_first()));
}

/// `fields_v` of a vector with a member pushed at the front.
proof fn lemma_fields_v_cons(x: (Vec<u8>, Json), fs: Seq<(Vec<u8>, Json)>)
    ensures
        fields_v(fs.insert(0, x)) == seq![(x.0@, x.1.v())] + fields_v(fs),
{
    let p = fs.insert(0, x);
    assert(p.drop_first() =~= fs);
    assert(p[0] == x);
    assert(fields_v(p) == seq![(p[0].0@, p[0].1.v())] + fields_v(p.drop_first()));
}

/// Executable counterpart of [`parse_value`].
fn p_value(s: &Vec<u8>, i: usize) -> (r: Option<(Json, usize)>)
    ensures
        match (r, parse_value(s@, i as int)) {
            (Some(p), Some(sp)) => p.0.v() == sp.0 && p.1 as int == sp.1,
            (None, None) => true,
            _ => false,
        },
    decreases s@.len() - i, 0int,
{
    if i >= s.len() {
        return None;
    }
    let c = s[i];
    if c == 0x6e {
        if s.len() - i >= 4 && s[i + 1] == 0x75 && s[i + 2] == 0x6c && s[i + 3] == 0x6c {
            Some((Json::Null, i + 4))
        } else {
            None
        }
    } else if c == 0x74 {
        if s.len() - i >= 4 && s[i + 1] == 0x72 && s[i + 2] == 0x75 && s[i + 3] == 0x65 {
            Some((Json::Bool(true), i + 4))
        } else {
            None
        }
    } else if c == 0x66 {
        if s.len() - i >= 5 && s[i + 1] == 0x61 && s[i + 2] == 0x6c && s[i + 3] == 0x73 && s[i + 4]
            == 0x65 {
            Some((Json::Bool(false), i + 5))
        } else {
            None
        }
    } else if c == 0x22 {
        match p_string(s, i + 1) {
            Some((cs, j)) => Some((Json::Str(cs), j)),
            None => None,
        }
    } else if c == 0x2d || (0x30 <= c && c <= 0x39) {
        p_number(s, i)
    } else if c == 0x5b {
        let k = ws_end_exec(s, i + 1);
        if k < s.len() && s[k] == 0x5d {
            Some((Json::Arr(Vec::new()), k + 1))
        } else {
            match p_elems(s, i + 1) {
                Some((es, j)) => Some((Json::Arr(es), j)),
                None => None,
            }
        }
    } else if c == 0x7b {
        let k = ws_end_exec(s, i + 1);
        if k < s.len() && s[k] == 0x7d {
            Some((Json::Obj(Vec::new()), k + 1))
        } else {
            match p_members(s, i + 1) {
                Some((fs, j)) => Some((Json::Obj(fs), j)),
                None => None,
            }
        }
    } else {
        None
    }
}

/// Executable counterpart of [`parse_elems`].
fn p_elems(s: &Vec<u8>, i: usize) -> (r: Option<(Vec<Json>, usize)>)
    ensures
        match (r, parse_elems(s@, i as int)) {
            (Some(p), Some(sp)) => seq_v(p.0@) == sp.0 && p.1 as int == sp.1,
            (None, None) => true,
            _ => false,
        },
    decreases s@.len() - i, 1int,
{
    if i > s.len() {
        return None;
    }
    let k = ws_end_exec(s, i);
    match p_value(s, k) {
        None => None,
        Some((v, m)) => {
            if m <= k || m > s.len() {
                return None;
            }
            let k2 = ws_end_exec(s, m);
            if k2 < s.len() && s[k2] == 0x2c {
                match p_elems(s, k2 + 1) {
                    Some((mut rest, j)) => {
                        let ghost rest0 = rest@;
                        rest.insert(0, v);
                        proof {
                            assert(rest@ == rest0.insert(0, v));
                            lemma_seq_v_cons(v, rest0);
                        }
                        Some((rest, j))
                    },
                    None => None,
                }
            } else if k2 < s.len() && s[k2] == 0x5d {
                let mut one: Vec<Json> = Vec::new();
                one.push(v);
                proof {
                    assert(one@.len() == 1);
                    assert(one@[0] == v);
                    assert(one@.drop_first() =~= Seq::<Json>::empty());
                    assert(seq_v(Seq::<Json>::empty()) == Seq::<JsonV>::empty());
                    assert(seq_v(one@) == seq![one@[0].v()] + seq_v(one@.drop_first()));
                    assert(seq_v(one@) =~= seq![v.v()]);
                }
                Some((one, k2 + 1))
            } else {
                None
            }
        },
    }
}

/// Executable counterpart of [`parse_members`].
fn p_members(s: &Vec<u8>, i: usize) -> (r: Option<(Vec<(Vec<u8>, Json)>, usize)>)
    ensures
        match (r, parse_members(s@, i as int)) {
            (Some(p), Some(sp)) => fields_v(p.0@) == sp.0 && p.1 as int == sp.1,
            (None, None) => true,
            _ => false,
        },
    decreases s@.len() - i, 1int,
{
    if i > s.len() {
        return None;
    }
    let k = ws_end_exec(s, i);
    if k < s.len() && s[k] == 0x22 {
        match p_string(s, k + 1) {
            None => None,
            Some((key, m)) => {
                if m <= k + 1 || m > s.len() {
                    return None;
                }
                let c = ws_end_exec(s, m);
                if c < s.len() && s[c] == 0x3a {
                    let vs = ws_end_exec(s, c + 1);
                    match p_value(s, vs) {
                        None => None,
                        Some((v, m2)) => {
                            if m2 <= vs || m2 > s.len() {
                                return None;
                            }
                            let k2 = ws_end_exec(s, m2);
                            if k2 < s.len() && s[k2] == 0x2c {
                                match p_members(s, k2 + 1) {
                                    Some((mut rest, j)) => {
                                        let ghost rest0 = rest@;
                                        rest.insert(0, (key, v));
                                        proof {
                                            assert(rest@ == rest0.insert(0, (key, v)));
                                            lemma_fields_v_cons((key, v), rest0);
                                        }
                                        Some((rest, j))
                                    },
                                    None => None,
                                }
                            } else if k2 < s.len() && s[k2] == 0x7d {
                                let mut one: Vec<(Vec<u8>, Json)> = Vec::new();
                                one.push((key, v));
                                proof {
                                    assert(one@.len() == 1);
                                    assert(one@[0] == (key, v));
                                    assert(one@.drop_first() =~= Seq::<(Vec<u8>, Json)>::empty());
                                    assert(fields_v(Seq::<(Vec<u8>, Json)>::empty())
                                        == Seq::<(Seq<u8>, JsonV)>::empty());
                                    assert(fields_v(one@) == seq![(one@[0].0@, one@[0].1.v())]
                                        + fields_v(one@.drop_first()));
                                    assert(fields_v(one@) =~= seq![(key@, v.v())]);
                                }
                                Some((one, k2 + 1))
                            } else {
                                None
                            }
                        },
                    }
                } else {
                    None
                }
            },
        }
    } else {
        None
    }
}

/// Parses one whole JSON document, exactly as [`json_parse`] describes.
pub fn parse_json(s: &Vec<u8>) -> (r: Option<Json>)
    ensures
        match (r, json_parse(s@)) {
            (Some(j), Some(jv)) => j.v() == jv,
            (None, None) => true,
            _ => false,
        },
{
    let i = ws_end_exec(s, 0);
    match p_value(s, i) {
        None => None,
        Some((v, j)) => {
            let k = ws_end_exec(s, j);
            if k == s.len() {
                Some(v)
            } else {
                None
            }
        },
    }
}


/// The shape of a value's specification view follows its constructor.
pub proof fn lemma_v_shape(j: Json)
    ensures
        match j {
            Json::Null => j.v() == JsonV::Null,
            Json::Bool(b) => j.v() == JsonV::Bool(b),
            Json::Int(i) => j.v() == JsonV::Int(i),
            Json::Str(s) => j.v() == JsonV::Str(s@),
            Json::Arr(es) => j.v() == JsonV::Arr(seq_v(es@)),
            Json::Obj(fs) => j.v() == JsonV::Obj(fields_v(fs@)),
        },
{
}


// ---------------------------------------------------------------------------
// The round trip: parsing a canonical serialization gives the value back.
// ---------------------------------------------------------------------------
/// Skipping whitespace stays put where none stands.
proof fn lemma_ws_end_here(s: Seq<u8>, i: int)
    requires
        i >= s.len() || (0 <= i && !is_ws(s[i])),
    ensures
        ws_end(s, i) == i,
{
}

/// A hexadecimal digit reads back as its value.
proof fn lemma_hex_round_trip(d: int)
    requires
        0 <= d < 16,
    ensures
        hex_val(hex_digit(d)) == Some(d),
{
}

/// Decimal digit runs are digit bytes; a nonzero number never starts with
/// a zero digit.
proof fn lemma_dec_digits_shape(n: nat)
    ensures
        dec_digits(n).len() >= 1,
        forall|k: int| 0 <= k < dec_digits(n).len() ==> is_digit(#[trigger] dec_digits(n)[k]),
        n >= 1 ==> dec_digits(n)[0] != 0x30,
    decreases n,
{
    if n >= 10 {
        lemma_dec_digits_shape(n / 10);
        assert forall|k: int|
            0 <= k < dec_digits(n).len() implies is_digit(#[trigger] dec_digits(n)[k]) by {
            if k < dec_digits(n / 10).len() {
                assert(dec_digits(n)[k] == dec_digits(n / 10)[k]);
            }
        }
        assert(dec_digits(n)[0] == dec_digits(n / 10)[0]);
    }
}

/// A run of digits bounded by a non-digit ends exactly at the bound.
proof fn lemma_digits_end_run(s: Seq<u8>, a: int, b: int)
    requires
        0 <= a <= b <= s.len(),
        forall|k: int| a <= k < b ==> is_digit(#[trigger] s[k]),
        b == s.len() || !is_digit(s[b]),
    ensures
        digits_end(s, a) == b,
    decreases b - a,
{
    if a < b {
        lemma_digits_end_run(s, a + 1, b);
    }
}

/// A stretch of bytes holding a number's decimal digits evaluates to the
/// number.
proof fn lemma_digits_val_rep(s: Seq<u8>, a: int, n: nat)
    requires
        0 <= a,
        a + dec_digits(n).len() <= s.len(),
        s.subrange(a, a + dec_digits(n).len()) == dec_digits(n),
    ensures
        digits_val(s, a, a + dec_digits(n).len()) == n,
    decreases n,
{
    let b = a + dec_digits(n).len();
    if n < 10 {
        assert(s[a] == dec_digits(n)[0]);
        assert(digits_val(s, a, b) == digits_val(s, a, a) * 10 + (s[a] - 0x30));
    } else {
        let head = dec_digits(n / 10);
        assert(dec_digits(n) == head + seq![digit_byte((n % 10) as int)]);
        assert(s.subrange(a, a + head.len()) =~= head);
        lemma_digits_val_rep(s, a, n / 10);
        assert(s[b - 1] == dec_digits(n)[dec_digits(n).len() - 1]);
        assert(s[b - 1] == digit_byte((n % 10) as int));
        assert(digits_val(s, a, b) == digits_val(s, a, b - 1) * 10 + (s[b - 1] - 0x30));
        assert(n == (n / 10) * 10 + n % 10) by {
            vstd::arithmetic::div_mod::lemma_fundamental_div_mod(n as int, 10);
        }
    }
}

/// What a serialization starts with: never whitespace, a separator, or a
/// closing bracket, so the byte after any skipped whitespace is the
/// value's own first byte.
proof fn lemma_ser_first(j: JsonV)
    ensures
        ser(j).len() >= 1,
        !is_ws(ser(j)[0]),
        ser(j)[0] != 0x5d,
        ser(j)[0] != 0x7d,
        ser(j)[0] != 0x2c,
        ser(j)[0] != 0x3a,
{
    match j {
        JsonV::Null => {},
        JsonV::Bool(b) => {},
        JsonV::Int(i) => {
            if i < 0 {
                assert(ser(j)[0] == 0x2d);
            } else {
                lemma_dec_digits_shape(i as nat);
                assert(ser(j)[0] == dec_digits(i as nat)[0]);
            }
        },
        JsonV::Str(s) => {
            assert(ser(j)[0] == 0x22);
        },
        JsonV::Arr(es) => {
            assert(ser(j)[0] == 0x5b);
        },
        JsonV::Obj(fs) => {
            assert(ser(j)[0] == 0x7b);
        },
    }
}


/// Escaped string content parses back to the content, up to and over the
/// closing quote.
proof fn lemma_rt_string(cs: Seq<u8>, pre: Seq<u8>, post: Seq<u8>)
    ensures
        parse_string(pre + esc(cs) + seq![0x22u8] + post, pre.len() as int) == Some(
            (cs, pre.len() + esc(cs).len() + 1int),
        ),
    decreases cs.len(),
{
    let s = pre + esc(cs) + seq![0x22u8] + post;
    let i = pre.len() as int;
    if cs.len() == 0 {
        assert(esc(cs) == Seq::<u8>::empty());
        assert(s[i] == 0x22);
        assert(parse_string(s, i) == Some((Seq::<u8>::empty(), i + 1)));
        assert(cs =~= Seq::<u8>::empty());
    } else {
        let c0 = cs[0];
        let rest = cs.drop_first();
        let e0 = esc_byte(c0);
        assert(esc(cs) == e0 + esc(rest));
        let pre2 = pre + e0;
        assert(s =~= pre2 + esc(rest) + seq![0x22u8] + post);
        lemma_rt_string(rest, pre2, post);
        assert(parse_string(s, pre2.len() as int) == Some(
            (rest, pre2.len() + esc(rest).len() + 1int),
        ));
        assert forall|k: int| 0 <= k < e0.len() implies s[i + k] == e0[k] by {
            assert(s[i + k] == (pre + esc(cs))[i + k]);
            assert((pre + esc(cs))[i + k] == esc(cs)[k]);
            assert(esc(cs)[k] == e0[k]);
        }
        if c0 == 0x22 || c0 == 0x5c {
            assert(e0.len() == 2);
            assert(s[i] == 0x5c);
            assert(unescape_byte(s[i + 1]) == Some(c0));
            assert(parse_string(s, i) == Some((seq![c0] + rest, i + 2 + esc(rest).len() + 1)));
            assert(seq![c0] + rest =~= cs);
        } else if c0 == 0x08 || c0 == 0x09 || c0 == 0x0a || c0 == 0x0c || c0 == 0x0d {
            assert(e0.len() == 2);
            assert(s[i] == 0x5c);
            assert(s[i + 1] != 0x75);
            assert(unescape_byte(s[i + 1]) == Some(c0));
            assert(parse_string(s, i) == Some((seq![c0] + rest, i + 2 + esc(rest).len() + 1)));
            assert(seq![c0] + rest =~= cs);
        } else if c0 < 0x20 {
            assert(e0.len() == 6);
            assert(s[i] == 0x5c);
            assert(s[i + 1] == 0x75);
            assert(s[i + 2] == 0x30);
            assert(s[i + 3] == 0x30);
            assert(s[i + 4] == hex_digit(c0 as int / 16));
            assert(s[i + 5] == hex_digit(c0 as int % 16));
            lemma_hex_round_trip(c0 as int / 16);
            lemma_hex_round_trip(c0 as int % 16);
            assert(hex_val(s[i + 2]) == Some(0int));
            assert(hex_val(s[i + 3]) == Some(0int));
            let v = 0 * 4096 + 0 * 256 + (c0 as int / 16) * 16 + (c0 as int % 16);
            assert(v == c0) by {
                vstd::arithmetic::div_mod::lemma_fundamental_div_mod(c0 as int, 16);
            }
            assert(parse_string(s, i) == Some((seq![v as u8] + rest, i + 6 + esc(rest).len() + 1)));
            assert(seq![v as u8] + rest =~= cs);
        } else {
            assert(e0 =~= seq![c0]);
            assert(s[i] == c0);
            assert(parse_string(s, i) == Some((seq![c0] + rest, i + 1 + esc(rest).len() + 1)));
            assert(seq![c0] + rest =~= cs);
        }
        assert(esc(cs).len() == e0.len() + esc(rest).len());
    }
}


/// A serialized value parses back to the value, whatever follows it — as
/// long as what follows cannot extend a number's digit run.
proof fn lemma_rt_value(j: JsonV, pre: Seq<u8>, post: Seq<u8>)
    requires
        post.len() > 0 ==> !is_digit(post[0]),
    ensures
        parse_value(pre + ser(j) + post, pre.len() as int) == Some(
            (j, pre.len() + ser(j).len() as int),
        ),
    decreases j, 0int,
{
    match j {
        JsonV::Null => {
            lemma_rt_literal(j, pre, post);
        },
        JsonV::Bool(b) => {
            lemma_rt_literal(j, pre, post);
        },
        JsonV::Int(v) => {
            lemma_rt_int(v, pre, post);
        },
        JsonV::Str(cs) => {
            lemma_rt_str(cs, pre, post);
        },
        JsonV::Arr(es) => {
            assert(decreases_to!(j => es));
            lemma_rt_arr(es, pre, post);
        },
        JsonV::Obj(fs) => {
            assert(decreases_to!(j => fs));
            lemma_rt_obj(fs, pre, post);
        },
    }
}

/// A serialized literal — `null`, `true` or `false` — parses back.
proof fn lemma_rt_literal(j: JsonV, pre: Seq<u8>, post: Seq<u8>)
    requires
        j is Null || j is Bool,
    ensures
        parse_value(pre + ser(j) + post, pre.len() as int) == Some(
            (j, pre.len() + ser(j).len() as int),
        ),
{
    let s = pre + ser(j) + post;
    let i = pre.len() as int;
    assert forall|k: int| 0 <= k < ser(j).len() implies s[i + k] == ser(j)[k] by {
        assert(s[i + k] == (pre + ser(j))[i + k]);
    }
    match j {
        JsonV::Null => {
            assert(s[i] == 0x6e && s[i + 1] == 0x75 && s[i + 2] == 0x6c && s[i + 3] == 0x6c);
        },
        JsonV::Bool(b) => {
            if b {
                assert(s[i] == 0x74 && s[i + 1] == 0x72 && s[i + 2] == 0x75 && s[i + 3] == 0x65);
            } else {
                assert(s[i] == 0x66 && s[i + 1] == 0x61 && s[i + 2] == 0x6c && s[i + 3] == 0x73
                    && s[i + 4] == 0x65);
            }
        },
        _ => {},
    }
}

/// A serialized string value parses back.
proof fn lemma_rt_str(cs: Seq<u8>, pre: Seq<u8>, post: Seq<u8>)
    ensures
        parse_value(pre + ser(JsonV::Str(cs)) + post, pre.len() as int) == Some(
            (JsonV::Str(cs), pre.len() + ser(JsonV::Str(cs)).len() as int),
        ),
{
    let s = pre + ser(JsonV::Str(cs)) + post;
    let i = pre.len() as int;
    assert(ser(JsonV::Str(cs)) == seq![0x22u8] + esc(cs) + seq![0x22u8]);
    assert(s[i] == (pre + ser(JsonV::Str(cs)))[i]);
    assert(s[i] == 0x22);
    let pre2 = pre + seq![0x22u8];
    assert(s =~= pre2 + esc(cs) + seq![0x22u8] + post);
    lemma_rt_string(cs, pre2, post);
    assert(parse_string(s, i + 1) == Some((cs, pre2.len() + esc(cs).len() + 1int)));
    assert(ser(JsonV::Str(cs)).len() == esc(cs).len() + 2);
}

/// A serialized array parses back.
#[verifier::rlimit(60)]
proof fn lemma_rt_arr(es: Seq<JsonV>, pre: Seq<u8>, post: Seq<u8>)
    ensures
        parse_value(pre + ser(JsonV::Arr(es)) + post, pre.len() as int) == Some(
            (JsonV::Arr(es), pre.len() + ser(JsonV::Arr(es)).len() as int),
        ),
    decreases es, 2int,
{
    let j = JsonV::Arr(es);
    let s = pre + ser(j) + post;
    let i = pre.len() as int;
    assert(ser(j) == seq![0x5bu8] + ser_elems(es) + seq![0x5du8]);
    assert forall|k: int| 0 <= k < ser(j).len() implies s[i + k] == ser(j)[k] by {
        assert(s[i + k] == (pre + ser(j))[i + k]);
    }
    assert(s[i] == 0x5b);
    if es.len() == 0 {
        assert(ser_elems(es) == Seq::<u8>::empty());
        assert(ser(j).len() == 2);
        assert(s[i + 1] == 0x5d);
        lemma_ws_end_here(s, i + 1);
        assert(es =~= Seq::<JsonV>::empty());
        assert(parse_value(s, i) == Some((JsonV::Arr(Seq::empty()), i + 2)));
    } else {
        let pre2 = pre + seq![0x5bu8];
        assert(s =~= pre2 + ser_elems(es) + seq![0x5du8] + post);
        lemma_rt_elems(es, pre2, post);
        lemma_ser_first(es[0]);
        assert(ser_elems(es)[0] == ser(es[0])[0]);
        assert(s[i + 1] == ser_elems(es)[0]);
        lemma_ws_end_here(s, i + 1);
        assert(ws_end(s, i + 1) == i + 1);
        assert(s[i + 1] != 0x5d);
        assert(parse_elems(s, i + 1) == Some((es, pre2.len() + ser_elems(es).len() + 1int)));
        assert(ser(j).len() == ser_elems(es).len() + 2);
        assert(parse_value(s, i) == Some((JsonV::Arr(es), i + ser(j).len() as int)));
    }
}

/// A serialized object parses back.
#[verifier::rlimit(60)]
proof fn lemma_rt_obj(fs: Seq<(Seq<u8>, JsonV)>, pre: Seq<u8>, post: Seq<u8>)
    ensures
        parse_value(pre + ser(JsonV::Obj(fs)) + post, pre.len() as int) == Some(
            (JsonV::Obj(fs), pre.len() + ser(JsonV::Obj(fs)).len() as int),
        ),
    decreases fs, 2int,
{
    let j = JsonV::Obj(fs);
    let s = pre + ser(j) + post;
    let i = pre.len() as int;
    assert(ser(j) == seq![0x7bu8] + ser_fields(fs) + seq![0x7du8]);
    assert forall|k: int| 0 <= k < ser(j).len() implies s[i + k] == ser(j)[k] by {
        assert(s[i + k] == (pre + ser(j))[i + k]);
    }
    assert(s[i] == 0x7b);
    if fs.len() == 0 {
        assert(ser_fields(fs) == Seq::<u8>::empty());
        assert(ser(j).len() == 2);
        assert(s[i + 1] == 0x7d);
        lemma_ws_end_here(s, i + 1);
        assert(fs =~= Seq::<(Seq<u8>, JsonV)>::empty());
        assert(parse_value(s, i) == Some((JsonV::Obj(Seq::empty()), i + 2)));
    } else {
        let pre2 = pre + seq![0x7bu8];
        assert(s =~= pre2 + ser_fields(fs) + seq![0x7du8] + post);
        lemma_rt_fields(fs, pre2, post);
        assert(ser_fields(fs)[0] == ser_field(fs[0])[0]);
        assert(ser_field(fs[0])[0] == 0x22);
        assert(s[i + 1] == 0x22);
        lemma_ws_end_here(s, i + 1);
        assert(s[i + 1] != 0x7d);
        assert(parse_members(s, i + 1) == Some((fs, pre2.len() + ser_fields(fs).len() + 1int)));
        assert(ser(j).len() == ser_fields(fs).len() + 2);
        assert(parse_value(s, i) == Some((JsonV::Obj(fs), i + ser(j).len() as int)));
    }
}

/// A serialized integer parses back to itself.
proof fn lemma_rt_int(v: i64, pre: Seq<u8>, post: Seq<u8>)
    requires
        post.len() > 0 ==> !is_digit(post[0]),
    ensures
        parse_value(pre + ser(JsonV::Int(v)) + post, pre.len() as int) == Some(
            (JsonV::Int(v), pre.len() + ser(JsonV::Int(v)).len() as int),
        ),
{
    let s = pre + ser(JsonV::Int(v)) + post;
    let i = pre.len() as int;
    let rep = ser(JsonV::Int(v));
    assert forall|k: int| 0 <= k < rep.len() implies s[i + k] == rep[k] by {
        assert(s[i + k] == (pre + rep)[i + k]);
    }
    let mag: nat = if v < 0 {
        (-(v as int)) as nat
    } else {
        v as nat
    };
    let digits = dec_digits(mag);
    lemma_dec_digits_shape(mag);
    let d0 = if v < 0 {
        i + 1
    } else {
        i
    };
    assert(rep == (if v < 0 {
        seq![0x2du8] + digits
    } else {
        digits
    }));
    assert forall|k: int| 0 <= k < digits.len() implies s[d0 + k] == digits[k] by {
        if v < 0 {
            assert(rep[1 + k] == digits[k]);
        } else {
            assert(rep[k] == digits[k]);
        }
    }
    let dend = d0 + digits.len();
    assert(s.subrange(d0, dend) =~= digits);
    lemma_digits_end_run(s, d0, dend);
    lemma_digits_val_rep(s, d0, mag);
    assert(digits_end(s, d0) == dend);
    assert(digits_val(s, d0, dend) == mag);
    if v < 0 {
        assert(s[i] == 0x2d);
        assert(!is_digit(0x2d));
        assert(mag >= 1);
        assert(s[d0] != 0x30);
        assert(parse_value(s, i) == parse_number(s, i));
    } else {
        assert(is_digit(s[i]));
        assert(s[i] != 0x2d);
        if mag >= 1 {
            assert(s[d0] != 0x30);
        } else {
            assert(digits.len() == 1);
        }
        assert(parse_value(s, i) == parse_number(s, i));
    }
}

/// Serialized array elements parse back through the closing bracket.
#[verifier::rlimit(100)]
proof fn lemma_rt_elems(es: Seq<JsonV>, pre: Seq<u8>, post: Seq<u8>)
    requires
        es.len() >= 1,
    ensures
        parse_elems(pre + ser_elems(es) + seq![0x5du8] + post, pre.len() as int) == Some(
            (es, pre.len() + ser_elems(es).len() + 1int),
        ),
    decreases es, 1int,
{
    let s = pre + ser_elems(es) + seq![0x5du8] + post;
    let i = pre.len() as int;
    let e0 = es[0];
    lemma_ser_first(e0);
    if es.len() == 1 {
        assert(ser_elems(es) == ser(e0));
        let post2 = seq![0x5du8] + post;
        assert(s =~= pre + ser(e0) + post2);
        assert(!is_digit(0x5d));
        lemma_rt_value(e0, pre, post2);
        let m = i + ser(e0).len() as int;
        assert(parse_value(s, i) == Some((e0, m)));
        assert(s[m] == 0x5d);
        lemma_ws_end_here(s, i);
        lemma_ws_end_here(s, m);
        assert(s[m] != 0x2c);
        assert(parse_elems(s, i) == Some((seq![e0], m + 1)));
        assert(seq![e0] =~= es);
    } else {
        let rest = es.drop_first();
        assert(ser_elems(es) == ser(e0) + seq![0x2cu8] + ser_elems(rest));
        let post2 = seq![0x2cu8] + ser_elems(rest) + seq![0x5du8] + post;
        assert(s =~= pre + ser(e0) + post2);
        assert(!is_digit(0x2c));
        lemma_rt_value(e0, pre, post2);
        let m = i + ser(e0).len() as int;
        assert(parse_value(s, i) == Some((e0, m)));
        assert(s[m] == 0x2c);
        lemma_ws_end_here(s, i);
        lemma_ws_end_here(s, m);
        let pre2 = pre + ser(e0) + seq![0x2cu8];
        assert(s =~= pre2 + ser_elems(rest) + seq![0x5du8] + post);
        lemma_rt_elems(rest, pre2, post);
        assert(parse_elems(s, m + 1) == Some((rest, pre2.len() + ser_elems(rest).len() + 1int)));
        assert(parse_elems(s, i) == Some((seq![e0] + rest, pre2.len() + ser_elems(rest).len()
            + 1int)));
        assert(seq![e0] + rest =~= es);
    }
}

/// One serialized member parses as its quoted key, a colon, and its
/// value, ending just before the tail.
proof fn lemma_rt_member(f0: (Seq<u8>, JsonV), pre: Seq<u8>, tail: Seq<u8>)
    requires
        tail.len() > 0,
        tail[0] == 0x2c || tail[0] == 0x7d,
    ensures
        ({
            let s = pre + ser_field(f0) + tail;
            let i = pre.len() as int;
            let m = i + 2 + esc(f0.0).len() as int;
            &&& s[i] == 0x22
            &&& parse_string(s, i + 1) == Some((f0.0, m))
            &&& s[m] == 0x3a
            &&& parse_value(s, m + 1) == Some((f0.1, i + ser_field(f0).len() as int))
        }),
    decreases f0, 3int,
{
    let s = pre + ser_field(f0) + tail;
    let i = pre.len() as int;
    let key = f0.0;
    let val = f0.1;
    assert(decreases_to!(f0 => f0.1));
    assert(ser_field(f0) == seq![0x22u8] + esc(key) + seq![0x22u8, 0x3au8] + ser(val));
    assert forall|k: int| 0 <= k < ser_field(f0).len() implies s[i + k] == ser_field(f0)[k] by {
        assert(s[i + k] == (pre + ser_field(f0))[i + k]);
    }
    assert(s[i] == 0x22);

    let preq = pre + seq![0x22u8];
    assert(s =~= preq + esc(key) + seq![0x22u8] + (seq![0x3au8] + ser(val) + tail));
    lemma_rt_string(key, preq, seq![0x3au8] + ser(val) + tail);
    let m = i + 2 + esc(key).len() as int;
    assert(parse_string(s, i + 1) == Some((key, m)));
    assert(s[m] == ser_field(f0)[m - i]);
    assert(s[m] == 0x3a);

    let prev = pre + seq![0x22u8] + esc(key) + seq![0x22u8, 0x3au8];
    assert(s =~= prev + ser(val) + tail);
    assert(!is_digit(tail[0]));
    lemma_rt_value(val, prev, tail);
    assert(parse_value(s, m + 1) == Some((val, prev.len() + ser(val).len() as int)));
    assert(prev.len() + ser(val).len() == i + ser_field(f0).len());
}

/// Serialized object members parse back through the closing brace.
#[verifier::rlimit(100)]
proof fn lemma_rt_fields(fs: Seq<(Seq<u8>, JsonV)>, pre: Seq<u8>, post: Seq<u8>)
    requires
        fs.len() >= 1,
    ensures
        parse_members(pre + ser_fields(fs) + seq![0x7du8] + post, pre.len() as int) == Some(
            (fs, pre.len() + ser_fields(fs).len() + 1int),
        ),
    decreases fs, 1int,
{
    let s = pre + ser_fields(fs) + seq![0x7du8] + post;
    let i = pre.len() as int;
    let f0 = fs[0];
    assert(decreases_to!(fs => fs[0]));
    let tail: Seq<u8> = if fs.len() == 1 {
        seq![0x7du8] + post
    } else {
        seq![0x2cu8] + ser_fields(fs.drop_first()) + seq![0x7du8] + post
    };
    assert(ser_fields(fs) == (if fs.len() == 1 {
        ser_field(f0)
    } else {
        ser_field(f0) + seq![0x2cu8] + ser_fields(fs.drop_first())
    }));
    assert(s =~= pre + ser_field(f0) + tail);
    lemma_rt_member(f0, pre, tail);
    let m = i + 2 + esc(f0.0).len() as int;
    let m2 = i + ser_field(f0).len() as int;
    lemma_ws_end_here(s, i);
    lemma_ws_end_here(s, m);
    lemma_ws_end_here(s, m2);
    assert(s[m2] == tail[0]);

    if fs.len() == 1 {
        assert(s[m2] == 0x7d);
        assert(s[m2] != 0x2c);
        assert(parse_members(s, i) == Some((seq![(f0.0, f0.1)], m2 + 1)));
        assert((f0.0, f0.1) == f0);
        assert(seq![f0] =~= fs);
        assert(m2 + 1 == i + ser_fields(fs).len() + 1);
    } else {
        let rest = fs.drop_first();
        assert(s[m2] == 0x2c);
        let pre2 = pre + ser_field(f0) + seq![0x2cu8];
        assert(s =~= pre2 + ser_fields(rest) + seq![0x7du8] + post);
        lemma_rt_fields(rest, pre2, post);
        assert(parse_members(s, m2 + 1) == Some(
            (rest, pre2.len() + ser_fields(rest).len() + 1int),
        ));
        assert(parse_members(s, i) == Some((seq![(f0.0, f0.1)] + rest, pre2.len() + ser_fields(
            rest,
        ).len() + 1int)));
        assert((f0.0, f0.1) == f0);
        assert(seq![f0] + rest =~= fs);
    }
}

/// Law: serialization is lossless.  A value's canonical serialization
/// parses back to exactly that value.
pub proof fn lemma_json_round_trip(j: JsonV)
    ensures
        json_parse(ser(j)) == Some(j),
{
    let s = ser(j);
    lemma_ser_first(j);
    assert(s =~= Seq::<u8>::empty() + ser(j) + Seq::<u8>::empty());
    lemma_rt_value(j, Seq::empty(), Seq::empty());
    lemma_ws_end_here(s, 0);
    assert(parse_value(s, 0) == Some((j, s.len() as int)));
    lemma_ws_end_here(s, s.len() as int);
}

} // verus!
