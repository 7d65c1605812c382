//! A structured JSON-like value, its mathematical model, and helpers
//! shared by the message codec and the encryption envelope.

use vstd::prelude::*;
use vstd::string::StringSliceAdditionalSpecFns;

verus! {

broadcast use vstd::std_specs::vec::axiom_vec_index_decreases;

/// A structured JSON-like payload value: null, booleans, 64-bit integers,
/// strings, arrays and objects (no floating point).
#[derive(Debug)]
pub enum JsonValue {
    Null,
    Bool(bool),
    Int(i64),
    Str(String),
    Arr(Vec<JsonValue>),
    Obj(Vec<(String, JsonValue)>),
}

/// Mathematical model of a `JsonValue`.
pub ghost enum JVal {
    Null,
    Bool(bool),
    Int(int),
    Str(Seq<char>),
    Arr(Seq<JVal>),
    Obj(Seq<(Seq<char>, JVal)>),
}

impl JsonValue {
    pub open spec fn jval(self) -> JVal
        decreases self,
    {
        match self {
            JsonValue::Null => JVal::Null,
            JsonValue::Bool(b) => JVal::Bool(b),
            JsonValue::Int(i) => JVal::Int(i as int),
            JsonValue::Str(s) => JVal::Str(s@),
            JsonValue::Arr(xs) => JVal::Arr(jval_seq(xs@)),
            JsonValue::Obj(fs) => JVal::Obj(jval_fields(fs@)),
        }
    }
}

pub open spec fn jval_seq(s: Seq<JsonValue>) -> Seq<JVal>
    decreases s,
{
    if s.len() == 0 {
        Seq::empty()
    } else {
        jval_seq(s.drop_last()).push(s.last().jval())
    }
}

pub open spec fn jval_fields(s: Seq<(String, JsonValue)>) -> Seq<(Seq<char>, JVal)>
    decreases s,
{
    if s.len() == 0 {
        Seq::empty()
    } else {
        jval_fields(s.drop_last()).push((s.last().0@, s.last().1.jval()))
    }
}

impl JsonValue {
    #[verifier::loop_isolation(false)]
    pub fn duplicate(&self) -> (r: JsonValue)
        ensures
            r.jval() == self.jval(),
        decreases *self,
    {
        match self {
            JsonValue::Null => JsonValue::Null,
            JsonValue::Bool(b) => JsonValue::Bool(*b),
            JsonValue::Int(i) => JsonValue::Int(*i),
            JsonValue::Str(s) => JsonValue::Str(s.clone()),
            JsonValue::Arr(xs) => {
                let mut out: Vec<JsonValue> = Vec::new();
                let mut i: usize = 0;
                while i < xs.len()
                    invariant
                        i <= xs.len(),
                        out@.len() == i as int,
                        forall|j: int| 0 <= j < i ==> out@[j].jval() == xs@[j].jval(),
                    decreases xs.len() - i,
                {
                    proof {
                        assert(decreases_to!(*self => *xs));
                        assert(decreases_to!(*xs => xs@[i as int]));
                    }
                    out.push(xs[i].duplicate());
                    i = i + 1;
                }
                proof {
                    lemma_jval_seq_index(xs@);
                    lemma_jval_seq_index(out@);
                    assert(jval_seq(out@) =~= jval_seq(xs@));
                }
                JsonValue::Arr(out)
            },
            JsonValue::Obj(fs) => {
                let mut out: Vec<(String, JsonValue)> = Vec::new();
                let mut i: usize = 0;
                while i < fs.len()
                    invariant
                        i <= fs.len(),
                        out@.len() == i as int,
                        forall|j: int| 0 <= j < i ==> out@[j].0@ == fs@[j].0@
                            && out@[j].1.jval() == fs@[j].1.jval(),
                    decreases fs.len() - i,
                {
                    proof {
                        assert(decreases_to!(*self => *fs));
                        assert(decreases_to!(*fs => fs@[i as int]));
                        assert(decreases_to!(fs@[i as int] => fs@[i as int].1));
                    }
                    let k = fs[i].0.clone();
                    let v = fs[i].1.duplicate();
                    out.push((k, v));
                    i = i + 1;
                }
                proof {
                    lemma_jval_fields_index(fs@);
                    lemma_jval_fields_index(out@);
                    assert(jval_fields(out@) =~= jval_fields(fs@));
                }
                JsonValue::Obj(out)
            },
        }
    }
}

/// `jval_seq` maps a sequence element-wise.
pub proof fn lemma_jval_seq_index(s: Seq<JsonValue>)
    ensures
        jval_seq(s).len() == s.len(),
        forall|i: int| 0 <= i < s.len() ==> jval_seq(s)[i] == s[i].jval(),
    decreases s,
{
    if s.len() > 0 {
        lemma_jval_seq_index(s.drop_last());
    }
}

/// `jval_fields` maps a sequence element-wise.
pub proof fn lemma_jval_fields_index(s: Seq<(String, JsonValue)>)
    ensures
        jval_fields(s).len() == s.len(),
        forall|i: int| 0 <= i < s.len() ==> jval_fields(s)[i] == (s[i].0@, s[i].1.jval()),
    decreases s,
{
    if s.len() > 0 {
        lemma_jval_fields_index(s.drop_last());
    }
}


/// The decimal digits of `n`.
pub open spec fn nat_bytes(n: nat) -> Seq<u8>
    decreases n,
{
    if n < 10 {
        seq![(48 + n) as u8]
    } else {
        nat_bytes(n / 10) + seq![(48 + n % 10) as u8]
    }
}

/// The canonical bytes of an integer: a minus sign where negative, then
/// decimal digits.
pub open spec fn int_bytes(i: int) -> Seq<u8> {
    if i < 0 {
        seq![45u8] + nat_bytes((-i) as nat)
    } else {
        nat_bytes(i as nat)
    }
}

/// The lower-case hex digit of `n` (`n < 16`).
pub open spec fn hex_digit(n: u8) -> u8 {
    if n < 10 {
        (48 + n) as u8
    } else {
        (87 + n) as u8
    }
}

/// How one byte of string content is written: quotes and backslashes are
/// escaped, control bytes become `\u00XX`, and everything else (UTF-8
/// continuation bytes included) passes through.
pub open spec fn esc_byte(b: u8) -> Seq<u8> {
    if b == 34 {
        seq![92u8, 34u8]
    } else if b == 92 {
        seq![92u8, 92u8]
    } else if b < 32 {
        seq![92u8, 117u8, 48u8, 48u8, hex_digit(b / 16), hex_digit(b % 16)]
    } else {
        seq![b]
    }
}

/// The escaped form of string content bytes.
pub open spec fn esc_bytes(bs: Seq<u8>) -> Seq<u8>
    decreases bs.len(),
{
    if bs.len() == 0 {
        Seq::empty()
    } else {
        esc_bytes(bs.drop_last()) + esc_byte(bs.last())
    }
}

/// The canonical bytes of a string value: quoted, escaped UTF-8.
pub open spec fn str_bytes(s: Seq<char>) -> Seq<u8> {
    seq![34u8] + esc_bytes(vstd::utf8::encode_utf8(s)) + seq![34u8]
}

/// The canonical JSON text of a value, as bytes: no whitespace, object
/// fields in their stored order.
pub open spec fn jbytes(v: JVal) -> Seq<u8>
    decreases v,
{
    match v {
        JVal::Null => seq![110u8, 117u8, 108u8, 108u8],
        JVal::Bool(b) => if b {
            seq![116u8, 114u8, 117u8, 101u8]
        } else {
            seq![102u8, 97u8, 108u8, 115u8, 101u8]
        },
        JVal::Int(i) => int_bytes(i),
        JVal::Str(s) => str_bytes(s),
        JVal::Arr(xs) => seq![91u8] + jarr_bytes(xs) + seq![93u8],
        JVal::Obj(fs) => seq![123u8] + jobj_bytes(fs) + seq![125u8],
    }
}

/// Comma-joined element texts of an array.
pub open spec fn jarr_bytes(xs: Seq<JVal>) -> Seq<u8>
    decreases xs,
{
    if xs.len() == 0 {
        Seq::empty()
    } else if xs.len() == 1 {
        jbytes(xs.last())
    } else {
        jarr_bytes(xs.drop_last()) + seq![44u8] + jbytes(xs.last())
    }
}

/// Comma-joined `"key":value` texts of an object.
pub open spec fn jobj_bytes(fs: Seq<(Seq<char>, JVal)>) -> Seq<u8>
    decreases fs,
{
    if fs.len() == 0 {
        Seq::empty()
    } else if fs.len() == 1 {
        str_bytes(fs.last().0) + seq![58u8] + jbytes(fs.last().1)
    } else {
        jobj_bytes(fs.drop_last()) + seq![44u8] + str_bytes(fs.last().0) + seq![58u8] + jbytes(
            fs.last().1,
        )
    }
}


/// The decimal digits of `n`, as text bytes.
fn write_nat(n: u64) -> (r: Vec<u8>)
    ensures
        r@ == nat_bytes(n as nat),
    decreases n,
{
    if n < 10 {
        let mut v: Vec<u8> = Vec::new();
        v.push(48 + n as u8);
        proof {
            assert(v@ =~= nat_bytes(n as nat));
        }
        v
    } else {
        let mut v = write_nat(n / 10);
        v.push(48 + (n % 10) as u8);
        proof {
            assert(v@ =~= nat_bytes((n / 10) as nat) + seq![(48 + (n as nat) % 10) as u8]);
        }
        v
    }
}

/// Appends the canonical text of `i`.
fn push_int(out: &mut Vec<u8>, i: i64)
    ensures
        final(out)@ == old(out)@ + int_bytes(i as int),
{
    if i < 0 {
        out.push(45);
        let mag: u64 = if i == i64::MIN {
            9223372036854775808u64
        } else {
            (-i) as u64
        };
        let mut digits = write_nat(mag);
        out.append(&mut digits);
        proof {
            assert(mag as nat == (-(i as int)) as nat);
            assert(final(out)@ =~= old(out)@ + int_bytes(i as int));
        }
    } else {
        let mut digits = write_nat(i as u64);
        out.append(&mut digits);
        proof {
            assert(final(out)@ =~= old(out)@ + int_bytes(i as int));
        }
    }
}

/// Appends the escaped content bytes of `s`.
#[verifier::loop_isolation(false)]
fn push_escaped(out: &mut Vec<u8>, s: &str)
    ensures
        final(out)@ == old(out)@ + esc_bytes(s.spec_bytes()),
{
    let bytes = s.as_bytes();
    let ghost bs = s.spec_bytes();
    let n = bytes.len();
    let mut i: usize = 0;
    proof {
        assert(esc_bytes(bs.take(0)) =~= Seq::<u8>::empty());
        assert(out@ =~= old(out)@ + esc_bytes(bs.take(0)));
    }
    while i < n
        invariant
            i <= n,
            n == bs.len(),
            bytes@ == bs,
            out@ == old(out)@ + esc_bytes(bs.take(i as int)),
        decreases n - i,
    {
        proof {
            assert(bs.take(i + 1).drop_last() =~= bs.take(i as int));
            assert(bs.take(i + 1).last() == bs[i as int]);
        }
        let b = bytes[i];
        if b == 34 {
            out.push(92);
            out.push(34);
        } else if b == 92 {
            out.push(92);
            out.push(92);
        } else if b < 32 {
            out.push(92);
            out.push(117);
            out.push(48);
            out.push(48);
            let hi = b / 16;
            let lo = b % 16;
            out.push(if hi < 10 { 48 + hi } else { 87 + hi });
            out.push(if lo < 10 { 48 + lo } else { 87 + lo });
        } else {
            out.push(b);
        }
        proof {
            assert(out@ =~= old(out)@ + esc_bytes(bs.take(i + 1)));
        }
        i = i + 1;
    }
    proof {
        assert(bs.take(n as int) =~= bs);
    }
}

/// Appends a quoted, escaped string value.
fn push_string_value(out: &mut Vec<u8>, s: &str)
    ensures
        final(out)@ == old(out)@ + str_bytes(s@),
{
    out.push(34);
    push_escaped(out, s);
    out.push(34);
    proof {
        assert(final(out)@ =~= old(out)@ + str_bytes(s@));
    }
}

impl JsonValue {
    /// The canonical JSON text of this value, as bytes.
    #[verifier::loop_isolation(false)]
    pub fn write_json(&self) -> (r: Vec<u8>)
        ensures
            r@ == jbytes(self.jval()),
        decreases *self,
    {
        let mut out: Vec<u8> = Vec::new();
        match self {
            JsonValue::Null => {
                out.push(110);
                out.push(117);
                out.push(108);
                out.push(108);
                proof {
                    assert(out@ =~= jbytes(self.jval()));
                }
            },
            JsonValue::Bool(b) => {
                if *b {
                    out.push(116);
                    out.push(114);
                    out.push(117);
                    out.push(101);
                } else {
                    out.push(102);
                    out.push(97);
                    out.push(108);
                    out.push(115);
                    out.push(101);
                }
                proof {
                    assert(out@ =~= jbytes(self.jval()));
                }
            },
            JsonValue::Int(i) => {
                push_int(&mut out, *i);
                proof {
                    assert(out@ =~= jbytes(self.jval()));
                }
            },
            JsonValue::Str(s) => {
                push_string_value(&mut out, s.as_str());
                proof {
                    assert(out@ =~= jbytes(self.jval()));
                }
            },
            JsonValue::Arr(xs) => {
                let ghost vs = jval_seq(xs@);
                proof {
                    lemma_jval_seq_index(xs@);
                }
                out.push(91);
                let n = xs.len();
                let mut i: usize = 0;
                proof {
                    assert(jarr_bytes(vs.take(0)) =~= Seq::<u8>::empty());
                    assert(out@ =~= seq![91u8] + jarr_bytes(vs.take(0)));
                }
                while i < n
                    invariant
                        i <= n,
                        n == xs@.len(),
                        vs == jval_seq(xs@),
                        vs.len() == n,
                        out@ == seq![91u8] + jarr_bytes(vs.take(i as int)),
                    decreases n - i,
                {
                    proof {
                        assert(vs.take(i + 1).drop_last() =~= vs.take(i as int));
                        assert(vs.take(i + 1).last() == vs[i as int]);
                        assert(decreases_to!(*self => *xs));
                        assert(decreases_to!(*xs => xs@[i as int]));
                    }
                    if i > 0 {
                        out.push(44);
                    }
                    let mut piece = xs[i].write_json();
                    out.append(&mut piece);
                    proof {
                        assert(out@ =~= seq![91u8] + jarr_bytes(vs.take(i + 1)));
                    }
                    i = i + 1;
                }
                out.push(93);
                proof {
                    assert(vs.take(n as int) =~= vs);
                    assert(out@ =~= jbytes(self.jval()));
                }
            },
            JsonValue::Obj(fs) => {
                let ghost vs = jval_fields(fs@);
                proof {
                    lemma_jval_fields_index(fs@);
                }
                out.push(123);
                let n = fs.len();
                let mut i: usize = 0;
                proof {
                    assert(jobj_bytes(vs.take(0)) =~= Seq::<u8>::empty());
                    assert(out@ =~= seq![123u8] + jobj_bytes(vs.take(0)));
                }
                while i < n
                    invariant
                        i <= n,
                        n == fs@.len(),
                        vs == jval_fields(fs@),
                        vs.len() == n,
                        out@ == seq![123u8] + jobj_bytes(vs.take(i as int)),
                    decreases n - i,
                {
                    proof {
                        assert(vs.take(i + 1).drop_last() =~= vs.take(i as int));
                        assert(vs.take(i + 1).last() == vs[i as int]);
                        assert(decreases_to!(*self => *fs));
                        assert(decreases_to!(*fs => fs@[i as int]));
                        assert(decreases_to!(fs@[i as int] => fs@[i as int].1));
                    }
                    if i > 0 {
                        out.push(44);
                    }
                    push_string_value(&mut out, fs[i].0.as_str());
                    out.push(58);
                    let mut piece = fs[i].1.write_json();
                    out.append(&mut piece);
                    proof {
                        assert(out@ =~= seq![123u8] + jobj_bytes(vs.take(i + 1)));
                    }
                    i = i + 1;
                }
                out.push(125);
                proof {
                    assert(vs.take(n as int) =~= vs);
                    assert(out@ =~= jbytes(self.jval()));
                }
            },
        }
        out
    }
}


/// Steps past JSON whitespace.
fn skip_ws(bytes: &[u8], pos: usize) -> (r: usize)
    requires
        pos <= bytes@.len(),
    ensures
        pos <= r <= bytes@.len(),
        pos < bytes@.len() && !is_ws(bytes@[pos as int]) ==> r == pos,
        pos == bytes@.len() ==> r == pos,
{
    let mut i = pos;
    while i < bytes.len() && (bytes[i] == 32 || bytes[i] == 9 || bytes[i] == 10 || bytes[i] == 13)
        invariant
            pos <= i <= bytes@.len(),
            pos < bytes@.len() && !is_ws(bytes@[pos as int]) ==> i == pos,
        decreases bytes@.len() - i,
    {
        proof {
            assert(is_ws(bytes@[i as int]));
        }
        i = i + 1;
    }
    i
}

/// The value of a hex digit byte, if it is one.
fn hex_val(b: u8) -> (r: Option<u8>)
    ensures
        r matches Some(v) ==> v < 16,
        48 <= b <= 57 ==> r == Some((b - 48) as u8),
        97 <= b <= 102 ==> r == Some((b - 87) as u8),
        65 <= b <= 70 ==> r == Some((b - 55) as u8),
        !(48 <= b <= 57 || 97 <= b <= 102 || 65 <= b <= 70) ==> r is None,
{
    if 48 <= b && b <= 57 {
        Some(b - 48)
    } else if 97 <= b && b <= 102 {
        Some(b - 87)
    } else if 65 <= b && b <= 70 {
        Some(b - 55)
    } else {
        None
    }
}


/// How one source byte shows up in escaped text.
proof fn lemma_esc_byte_shape(b: u8)
    ensures
        esc_byte(b).len() >= 1,
        esc_byte(b)[0] != 34,
        (esc_byte(b)[0] == 92) == (b == 34 || b == 92 || b < 32),
        b == 34 ==> esc_byte(b) == seq![92u8, 34u8],
        b == 92 ==> esc_byte(b) == seq![92u8, 92u8],
        b < 32 ==> esc_byte(b) == seq![92u8, 117u8, 48u8, 48u8, hex_digit(b / 16), hex_digit(
            b % 16,
        )] && b / 16 < 2 && b % 16 < 16 && b == (b / 16) * 16 + b % 16,
        !(b == 34 || b == 92 || b < 32) ==> esc_byte(b) == seq![b],
{
    if b < 32 {
        vstd::arithmetic::div_mod::lemma_fundamental_div_mod(b as int, 16);
    }
}

/// The escaped text grows by exactly one unit per source byte.
proof fn lemma_esc_unit(bs: Seq<u8>, k: int)
    requires
        0 <= k < bs.len(),
    ensures
        esc_bytes(bs.take(k + 1)) == esc_bytes(bs.take(k)) + esc_byte(bs[k]),
        esc_bytes(bs.take(k)).len() + esc_byte(bs[k]).len() <= esc_bytes(bs).len(),
        forall|t: int|
            0 <= t < esc_byte(bs[k]).len() ==> esc_bytes(bs)[esc_bytes(bs.take(k)).len() + t]
                == esc_byte(bs[k])[t],
{
    lemma_esc_front(bs, k);
    assert(bs.take(k + 1) =~= bs.take(k) + seq![bs[k]]);
    lemma_esc_concat(bs.take(k), seq![bs[k]]);
    lemma_esc_single(bs[k]);
    let a = esc_bytes(bs.take(k));
    let u = esc_byte(bs[k]);
    let rest = esc_bytes(bs.skip(k + 1));
    assert forall|t: int| 0 <= t < u.len() implies esc_bytes(bs)[a.len() + t] == u[t] by {
        assert(esc_bytes(bs) == a + u + rest);
        assert((a + u + rest)[a.len() + t] == u[t]);
    }
}

/// What the canonical text of a string forces on the surrounding bytes.
proof fn lemma_str_candidate(bytes: Seq<u8>, pos: int, end: int, cs: Seq<char>)
    requires
        canonical_at(bytes, pos, end, JVal::Str(cs)),
    ensures
        ({
            let es = esc_bytes(vstd::utf8::encode_utf8(cs));
            &&& end == pos + 2 + es.len()
            &&& bytes[pos] == 34
            &&& bytes[end - 1] == 34
            &&& forall|i: int| 0 <= i < es.len() ==> bytes[pos + 1 + i] == es[i]
        }),
{
    let es = esc_bytes(vstd::utf8::encode_utf8(cs));
    assert(bytes.subrange(pos, end) == seq![34u8] + es + seq![34u8]);
    assert(bytes.subrange(pos, end).len() == 2 + es.len());
    assert(forall|i: int|
        pos <= i < end ==> bytes[i] == #[trigger] bytes.subrange(pos, end)[i - pos]);
    assert(bytes[pos] == (seq![34u8] + es + seq![34u8])[0]);
    assert(bytes[end - 1] == (seq![34u8] + es + seq![34u8])[1 + es.len() as int]);
    assert forall|i: int| 0 <= i < es.len() implies bytes[pos + 1 + i] == es[i] by {
        assert(bytes[pos + 1 + i] == bytes.subrange(pos, end)[1 + i]);
        assert((seq![34u8] + es + seq![34u8])[1 + i] == es[i]);
    }
}

/// The scan state of the string reader: `k` source bytes recovered, the
/// cursor past their escaped forms.
pub open spec fn scan_state(bs: Seq<u8>, raw: Seq<u8>, rel: int, k: int) -> bool {
    &&& 0 <= k <= bs.len()
    &&& raw == bs.take(k)
    &&& rel == esc_bytes(bs.take(k)).len()
}

/// Reads a quoted string starting at the opening quote.  Escapes for
/// quote, backslash, slash, and the common control characters are
/// decoded; `\uXXXX` is accepted for ASCII code points only.
fn parse_string(bytes: &[u8], pos: usize) -> (r: Option<(String, usize)>)
    requires
        pos < bytes@.len(),
    ensures
        r matches Some(p) ==> pos < p.1 <= bytes@.len(),
        forall|cs: Seq<char>, end: int|
            #[trigger] canonical_at(bytes@, pos as int, end, JVal::Str(cs)) ==> (r matches Some(p)
                && p.0@ == cs && p.1 == end),
{
    let n = bytes.len();
    let mut raw: Vec<u8> = Vec::new();
    let mut j = pos + 1;
    proof {
        assert forall|cs: Seq<char>, end: int|
            #[trigger] canonical_at(bytes@, pos as int, end, JVal::Str(cs)) implies exists|k: int|
            #[trigger] scan_state(
            vstd::utf8::encode_utf8(cs),
            raw@,
            j - (pos + 1) as int,
            k,
        ) by {
            let bs = vstd::utf8::encode_utf8(cs);
            assert(bs.take(0) =~= Seq::<u8>::empty());
            assert(esc_bytes(Seq::<u8>::empty()) =~= Seq::<u8>::empty());
            assert(raw@ =~= Seq::<u8>::empty());
            assert(raw@ =~= bs.take(0));
            assert(scan_state(bs, raw@, j - (pos + 1) as int, 0));
        }
    }
    while j < n
        invariant
            pos < j <= n,
            n == bytes@.len(),
            forall|cs: Seq<char>, end: int|
                #[trigger] canonical_at(bytes@, pos as int, end, JVal::Str(cs)) ==> exists|k: int|
                    #[trigger] scan_state(
                    vstd::utf8::encode_utf8(cs),
                    raw@,
                    j - (pos + 1) as int,
                    k,
                ),
        decreases n - j,
    {
        let ghost j0 = j as int;
        let ghost raw0 = raw@;
        let b = bytes[j];
        if b == 34 {
            proof {
                assert forall|cs: Seq<char>, end: int|
                    #[trigger] canonical_at(bytes@, pos as int, end, JVal::Str(cs)) implies (
                raw0 == vstd::utf8::encode_utf8(cs) && j0 + 1 == end) by {
                    lemma_str_candidate(bytes@, pos as int, end, cs);
                    let bs = vstd::utf8::encode_utf8(cs);
                    let k = choose|k: int| #[trigger] scan_state(bs, raw0, j0 - (pos + 1), k);
                    if k < bs.len() {
                        lemma_esc_unit(bs, k);
                        lemma_esc_byte_shape(bs[k]);
                        assert(bytes@[j0] == esc_bytes(bs)[j0 - (pos + 1)]);
                        assert(esc_bytes(bs)[esc_bytes(bs.take(k)).len() as int] == esc_byte(
                            bs[k],
                        )[0]);
                    }
                    assert(k == bs.len());
                    assert(bs.take(k) =~= bs);
                }
            }
            return match crate::text::bytes_to_string(raw.as_slice()) {
                Some(s) => {
                    proof {
                        assert forall|cs: Seq<char>, end: int|
                            #[trigger] canonical_at(
                            bytes@,
                            pos as int,
                            end,
                            JVal::Str(cs),
                        ) implies s@ == cs by {
                            vstd::utf8::encode_utf8_decode_utf8(cs);
                            vstd::utf8::encode_utf8_decode_utf8(s@);
                        }
                    }
                    Some((s, j + 1))
                },
                None => {
                    proof {
                        assert forall|cs: Seq<char>, end: int|
                            #[trigger] canonical_at(
                            bytes@,
                            pos as int,
                            end,
                            JVal::Str(cs),
                        ) implies false by {
                            vstd::utf8::encode_utf8_valid_utf8(cs);
                        }
                    }
                    None
                },
            };
        }
        if b == 92 {
            if n - j < 2 {
                proof {
                    assert forall|cs: Seq<char>, end: int|
                        #[trigger] canonical_at(bytes@, pos as int, end, JVal::Str(cs)) implies
                        false by {
                        lemma_str_candidate(bytes@, pos as int, end, cs);
                        let bs = vstd::utf8::encode_utf8(cs);
                        let k = choose|k: int| #[trigger] scan_state(bs, raw0, j0 - (pos + 1), k);
                        if k == bs.len() {
                            assert(bs.take(k) =~= bs);
                            assert(bytes@[j0] == 34);
                        } else {
                            lemma_esc_unit(bs, k);
                            lemma_esc_byte_shape(bs[k]);
                            assert(bytes@[j0] == esc_byte(bs[k])[0]);
                            assert(esc_byte(bs[k]).len() >= 2);
                            assert(j0 + 1 < end);
                        }
                    }
                }
                return None;
            }
            let e = bytes[j + 1];
            proof {
                assert forall|cs: Seq<char>, end: int|
                    #[trigger] canonical_at(bytes@, pos as int, end, JVal::Str(cs)) implies ({
                    let bs = vstd::utf8::encode_utf8(cs);
                    exists|k: int|
                        {
                            &&& #[trigger] scan_state(bs, raw0, j0 - (pos + 1), k)
                            &&& k < bs.len()
                            &&& (bs[k] == 34 || bs[k] == 92 || bs[k] < 32)
                            &&& e == esc_byte(bs[k])[1]
                            &&& (forall|t: int|
                                0 <= t < esc_byte(bs[k]).len() ==> j0 + t < end - 1 && bytes@[j0
                                    + t] == esc_byte(bs[k])[t])
                        }
                }) by {
                    lemma_str_candidate(bytes@, pos as int, end, cs);
                    let bs = vstd::utf8::encode_utf8(cs);
                    let k = choose|k: int| #[trigger] scan_state(bs, raw0, j0 - (pos + 1), k);
                    if k == bs.len() {
                        assert(bs.take(k) =~= bs);
                        assert(bytes@[j0] == 34);
                    }
                    lemma_esc_unit(bs, k);
                    lemma_esc_byte_shape(bs[k]);
                    assert forall|t: int|
                        0 <= t < esc_byte(bs[k]).len() implies j0 + t < end - 1 && bytes@[j0 + t]
                        == esc_byte(bs[k])[t] by {
                        assert(esc_bytes(bs)[esc_bytes(bs.take(k)).len() + t] == esc_byte(
                            bs[k],
                        )[t]);
                        assert(bytes@[pos + 1 + (j0 - (pos + 1) + t)] == esc_bytes(bs)[j0 - (pos
                            + 1) + t]);
                    }
                    assert(bytes@[j0] == esc_byte(bs[k])[0]);
                    assert(scan_state(bs, raw0, j0 - (pos + 1), k) && k < bs.len() && (bs[k] == 34
                        || bs[k] == 92 || bs[k] < 32) && e == esc_byte(bs[k])[1] && (forall|t: int|
                        0 <= t < esc_byte(bs[k]).len() ==> j0 + t < end - 1 && bytes@[j0 + t]
                            == esc_byte(bs[k])[t]));
                }
            }
            if e == 34 || e == 92 || e == 47 {
                raw.push(e);
                j = j + 2;
                proof {
                    assert forall|cs: Seq<char>, end: int|
                        #[trigger] canonical_at(bytes@, pos as int, end, JVal::Str(cs)) implies
                        exists|k: int|
                        #[trigger] scan_state(
                        vstd::utf8::encode_utf8(cs),
                        raw@,
                        j - (pos + 1) as int,
                        k,
                    ) by {
                        let bs = vstd::utf8::encode_utf8(cs);
                        let k = choose|k: int|
                            {
                                &&& #[trigger] scan_state(bs, raw0, j0 - (pos + 1), k)
                                &&& k < bs.len()
                                &&& (bs[k] == 34 || bs[k] == 92 || bs[k] < 32)
                                &&& e == esc_byte(bs[k])[1]
                                &&& (forall|t: int|
                                    0 <= t < esc_byte(bs[k]).len() ==> j0 + t < end - 1 && bytes@[
                                        j0 + t] == esc_byte(bs[k])[t])
                            };
                        lemma_esc_byte_shape(bs[k]);
                        assert(bs[k] == e);
                        lemma_esc_unit(bs, k);
                        assert(bs.take(k + 1) =~= bs.take(k).push(bs[k]));
                        assert(raw@ =~= bs.take(k + 1));
                        assert(scan_state(bs, raw@, j - (pos + 1) as int, k + 1));
                    }
                }
            } else if e == 110 || e == 116 || e == 114 || e == 98 || e == 102 {
                if e == 110 {
                    raw.push(10);
                } else if e == 116 {
                    raw.push(9);
                } else if e == 114 {
                    raw.push(13);
                } else if e == 98 {
                    raw.push(8);
                } else {
                    raw.push(12);
                }
                j = j + 2;
                proof {
                    assert forall|cs: Seq<char>, end: int|
                        #[trigger] canonical_at(bytes@, pos as int, end, JVal::Str(cs)) implies
                        exists|k: int|
                        #[trigger] scan_state(
                        vstd::utf8::encode_utf8(cs),
                        raw@,
                        j - (pos + 1) as int,
                        k,
                    ) by {
                        let bs = vstd::utf8::encode_utf8(cs);
                        let k = choose|k: int|
                            {
                                &&& #[trigger] scan_state(bs, raw0, j0 - (pos + 1), k)
                                &&& k < bs.len()
                                &&& (bs[k] == 34 || bs[k] == 92 || bs[k] < 32)
                                &&& e == esc_byte(bs[k])[1]
                                &&& (forall|t: int|
                                    0 <= t < esc_byte(bs[k]).len() ==> j0 + t < end - 1 && bytes@[
                                        j0 + t] == esc_byte(bs[k])[t])
                            };
                        lemma_esc_byte_shape(bs[k]);
                    }
                }
            } else if e == 117 {
                if n - j < 6 {
                    proof {
                        assert forall|cs: Seq<char>, end: int|
                            #[trigger] canonical_at(
                            bytes@,
                            pos as int,
                            end,
                            JVal::Str(cs),
                        ) implies false by {
                            let bs = vstd::utf8::encode_utf8(cs);
                            let k = choose|k: int|
                                {
                                    &&& #[trigger] scan_state(bs, raw0, j0 - (pos + 1), k)
                                    &&& k < bs.len()
                                    &&& (bs[k] == 34 || bs[k] == 92 || bs[k] < 32)
                                    &&& e == esc_byte(bs[k])[1]
                                    &&& (forall|t: int|
                                        0 <= t < esc_byte(bs[k]).len() ==> j0 + t < end - 1
                                            && bytes@[j0 + t] == esc_byte(bs[k])[t])
                                };
                            lemma_esc_byte_shape(bs[k]);
                            assert(bs[k] < 32);
                            assert(esc_byte(bs[k]).len() == 6);
                            assert(j0 + 5 < end - 1);
                            assert(end <= n);
                        }
                    }
                    return None;
                }
                let h1 = hex_val(bytes[j + 2]);
                let h2 = hex_val(bytes[j + 3]);
                let h3 = hex_val(bytes[j + 4]);
                let h4 = hex_val(bytes[j + 5]);
                proof {
                    assert forall|cs: Seq<char>, end: int|
                        #[trigger] canonical_at(bytes@, pos as int, end, JVal::Str(cs)) implies ({
                        let bs = vstd::utf8::encode_utf8(cs);
                        exists|k: int|
                            {
                                &&& #[trigger] scan_state(bs, raw0, j0 - (pos + 1), k)
                                &&& k < bs.len()
                                &&& bs[k] < 32
                                &&& h1 == Some(0u8)
                                &&& h2 == Some(0u8)
                                &&& h3 == Some((bs[k] / 16) as u8)
                                &&& h4 == Some((bs[k] % 16) as u8)
                            }
                    }) by {
                        let bs = vstd::utf8::encode_utf8(cs);
                        let k = choose|k: int|
                            {
                                &&& #[trigger] scan_state(bs, raw0, j0 - (pos + 1), k)
                                &&& k < bs.len()
                                &&& (bs[k] == 34 || bs[k] == 92 || bs[k] < 32)
                                &&& e == esc_byte(bs[k])[1]
                                &&& (forall|t: int|
                                    0 <= t < esc_byte(bs[k]).len() ==> j0 + t < end - 1 && bytes@[
                                        j0 + t] == esc_byte(bs[k])[t])
                            };
                        lemma_esc_byte_shape(bs[k]);
                        assert(bs[k] < 32);
                        assert(bytes@[j0 + 2] == 48 && bytes@[j0 + 3] == 48);
                        assert(bytes@[j0 + 4] == hex_digit(bs[k] / 16));
                        assert(bytes@[j0 + 5] == hex_digit(bs[k] % 16));
                        assert(scan_state(bs, raw0, j0 - (pos + 1), k) && k < bs.len() && bs[k]
                            < 32 && h1 == Some(0u8) && h2 == Some(0u8) && h3 == Some(
                            (bs[k] / 16) as u8,
                        ) && h4 == Some((bs[k] % 16) as u8));
                    }
                }
                match (h1, h2, h3, h4) {
                    (Some(a), Some(b2), Some(c), Some(d)) => {
                        if a != 0 || b2 != 0 || c >= 8 {
                            proof {
                                assert forall|cs: Seq<char>, end: int|
                                    #[trigger] canonical_at(
                                    bytes@,
                                    pos as int,
                                    end,
                                    JVal::Str(cs),
                                ) implies false by {
                                    let bs = vstd::utf8::encode_utf8(cs);
                                    let k = choose|k: int|
                                        {
                                            &&& #[trigger] scan_state(bs, raw0, j0 - (pos + 1), k)
                                            &&& k < bs.len()
                                            &&& bs[k] < 32
                                            &&& h1 == Some(0u8)
                                            &&& h2 == Some(0u8)
                                            &&& h3 == Some((bs[k] / 16) as u8)
                                            &&& h4 == Some((bs[k] % 16) as u8)
                                        };
                                }
                            }
                            return None;
                        }
                        raw.push(c * 16 + d);
                        j = j + 6;
                        proof {
                            assert forall|cs: Seq<char>, end: int|
                                #[trigger] canonical_at(
                                bytes@,
                                pos as int,
                                end,
                                JVal::Str(cs),
                            ) implies exists|k: int|
                                #[trigger] scan_state(
                                vstd::utf8::encode_utf8(cs),
                                raw@,
                                j - (pos + 1) as int,
                                k,
                            ) by {
                                let bs = vstd::utf8::encode_utf8(cs);
                                let k = choose|k: int|
                                    {
                                        &&& #[trigger] scan_state(bs, raw0, j0 - (pos + 1), k)
                                        &&& k < bs.len()
                                        &&& bs[k] < 32
                                        &&& h1 == Some(0u8)
                                        &&& h2 == Some(0u8)
                                        &&& h3 == Some((bs[k] / 16) as u8)
                                        &&& h4 == Some((bs[k] % 16) as u8)
                                    };
                                lemma_esc_byte_shape(bs[k]);
                                lemma_esc_unit(bs, k);
                                assert(c * 16 + d == bs[k]);
                                assert(bs.take(k + 1) =~= bs.take(k).push(bs[k]));
                                assert(raw@ =~= bs.take(k + 1));
                                assert(scan_state(bs, raw@, j - (pos + 1) as int, k + 1));
                            }
                        }
                    },
                    _ => {
                        proof {
                            assert forall|cs: Seq<char>, end: int|
                                #[trigger] canonical_at(
                                bytes@,
                                pos as int,
                                end,
                                JVal::Str(cs),
                            ) implies false by {
                                let bs = vstd::utf8::encode_utf8(cs);
                                let k = choose|k: int|
                                    {
                                        &&& #[trigger] scan_state(bs, raw0, j0 - (pos + 1), k)
                                        &&& k < bs.len()
                                        &&& bs[k] < 32
                                        &&& h1 == Some(0u8)
                                        &&& h2 == Some(0u8)
                                        &&& h3 == Some((bs[k] / 16) as u8)
                                        &&& h4 == Some((bs[k] % 16) as u8)
                                    };
                            }
                        }
                        return None;
                    },
                }
            } else {
                proof {
                    assert forall|cs: Seq<char>, end: int|
                        #[trigger] canonical_at(bytes@, pos as int, end, JVal::Str(cs)) implies
                        false by {
                        let bs = vstd::utf8::encode_utf8(cs);
                        let k = choose|k: int|
                            {
                                &&& #[trigger] scan_state(bs, raw0, j0 - (pos + 1), k)
                                &&& k < bs.len()
                                &&& (bs[k] == 34 || bs[k] == 92 || bs[k] < 32)
                                &&& e == esc_byte(bs[k])[1]
                                &&& (forall|t: int|
                                    0 <= t < esc_byte(bs[k]).len() ==> j0 + t < end - 1 && bytes@[
                                        j0 + t] == esc_byte(bs[k])[t])
                            };
                        lemma_esc_byte_shape(bs[k]);
                    }
                }
                return None;
            }
        } else {
            raw.push(b);
            j = j + 1;
            proof {
                assert forall|cs: Seq<char>, end: int|
                    #[trigger] canonical_at(bytes@, pos as int, end, JVal::Str(cs)) implies exists|
                    k: int,
                |
                    #[trigger] scan_state(
                    vstd::utf8::encode_utf8(cs),
                    raw@,
                    j - (pos + 1) as int,
                    k,
                ) by {
                    lemma_str_candidate(bytes@, pos as int, end, cs);
                    let bs = vstd::utf8::encode_utf8(cs);
                    let k = choose|k: int| #[trigger] scan_state(bs, raw0, j0 - (pos + 1), k);
                    if k == bs.len() {
                        assert(bs.take(k) =~= bs);
                        assert(bytes@[j0] == 34);
                    }
                    lemma_esc_unit(bs, k);
                    lemma_esc_byte_shape(bs[k]);
                    assert(bytes@[j0] == esc_bytes(bs)[j0 - (pos + 1)]);
                    assert(esc_bytes(bs)[esc_bytes(bs.take(k)).len() as int] == esc_byte(bs[k])[0]);
                    assert(esc_byte(bs[k])[0] == b);
                    assert(bs[k] == b);
                    assert(bs.take(k + 1) =~= bs.take(k).push(bs[k]));
                    assert(raw@ =~= bs.take(k + 1));
                    assert(scan_state(bs, raw@, j - (pos + 1) as int, k + 1));
                }
            }
        }
    }
    proof {
        assert forall|cs: Seq<char>, end: int|
            #[trigger] canonical_at(bytes@, pos as int, end, JVal::Str(cs)) implies false by {
            lemma_str_candidate(bytes@, pos as int, end, cs);
            let bs = vstd::utf8::encode_utf8(cs);
            let k = choose|k: int| #[trigger] scan_state(bs, raw@, j - (pos + 1) as int, k);
            lemma_esc_concat(bs.take(k), bs.skip(k));
            assert(bs.take(k) + bs.skip(k) =~= bs);
            assert(esc_bytes(bs.take(k)).len() <= esc_bytes(bs).len());
            assert(j <= end - 1);
            assert(end <= n);
        }
    }
    None
}


/// What the canonical text of an integer forces on the surrounding
/// bytes: the sign byte, the digit region and its value.
proof fn lemma_int_candidate(bytes: Seq<u8>, pos: int, end: int, q: int)
    requires
        canonical_at(bytes, pos, end, JVal::Int(q)),
    ensures
        ({
            let dstart = pos + if q < 0 {
                1int
            } else {
                0int
            };
            let mm = if q < 0 {
                (-q) as nat
            } else {
                q as nat
            };
            &&& (bytes[pos] == 45) == (q < 0)
            &&& end == dstart + nat_bytes(mm).len()
            &&& dstart < end
            &&& (forall|i: int| dstart <= i < end ==> is_digit(#[trigger] bytes[i]))
            &&& bytes.subrange(dstart, end) =~= nat_bytes(mm)
            &&& digits_val(bytes.subrange(dstart, end)) == mm
            &&& mm <= 0x8000000000000000
            &&& (q >= 0 ==> mm <= 0x7fffffffffffffff)
        }),
{
    let dstart = pos + if q < 0 {
        1int
    } else {
        0int
    };
    let mm = if q < 0 {
        (-q) as nat
    } else {
        q as nat
    };
    let ds = nat_bytes(mm);
    lemma_nat_bytes_len_pos(mm);
    lemma_nat_bytes_ascii(mm);
    lemma_digits_val_nat_bytes(mm);
    assert(bytes.subrange(pos, end) == int_bytes(q));
    if q < 0 {
        assert(int_bytes(q) == seq![45u8] + ds);
        assert(bytes.subrange(pos, end).len() == 1 + ds.len());
        assert(forall|i: int|
            pos <= i < end ==> bytes[i] == #[trigger] bytes.subrange(pos, end)[i - pos]);
        assert(bytes[pos] == (seq![45u8] + ds)[0]);
        assert forall|i: int| 0 <= i < ds.len() implies bytes.subrange(dstart, end)[i]
            == ds[i] by {
            assert(bytes.subrange(dstart, end)[i] == bytes[dstart + i]);
            assert(bytes[dstart + i] == bytes.subrange(pos, end)[dstart + i - pos]);
            assert((seq![45u8] + ds)[1 + i] == ds[i]);
        }
        assert(bytes.subrange(dstart, end) =~= ds);
    } else {
        assert(int_bytes(q) == ds);
        assert(forall|i: int|
            pos <= i < end ==> bytes[i] == #[trigger] bytes.subrange(pos, end)[i - pos]);
        assert(bytes.subrange(dstart, end) =~= ds);
        assert(bytes[pos] == ds[0]);
        assert(is_digit(ds[0]));
    }
    assert forall|i: int| dstart <= i < end implies is_digit(#[trigger] bytes[i]) by {
        assert(bytes[i] == bytes.subrange(dstart, end)[i - dstart]);
        assert(bytes.subrange(dstart, end)[i - dstart] == ds[i - dstart]);
        assert(is_digit(ds[i - dstart]));
    }
}

/// Reads an integer (an optional minus sign and decimal digits) fitting
/// in an `i64`.
fn parse_number(bytes: &[u8], pos: usize) -> (r: Option<(i64, usize)>)
    requires
        pos < bytes@.len(),
    ensures
        r matches Some(p) ==> pos < p.1 <= bytes@.len(),
        forall|q: int, end: int|
            #[trigger] canonical_at(bytes@, pos as int, end, JVal::Int(q)) ==> (r matches Some(p)
                && p.0 == q && p.1 == end),
{
    let n = bytes.len();
    let mut j = pos;
    let neg = bytes[j] == 45;
    if neg {
        j = j + 1;
    }
    let ghost dstart = j as int;
    if j >= n || !(48 <= bytes[j] && bytes[j] <= 57) {
        proof {
            assert forall|q: int, end: int|
                #[trigger] canonical_at(bytes@, pos as int, end, JVal::Int(q)) implies false by {
                lemma_int_candidate(bytes@, pos as int, end, JVal::Int(q)->Int_0);
                assert(is_digit(bytes@[dstart]));
            }
        }
        return None;
    }
    let mut mag: u64 = (bytes[j] - 48) as u64;
    j = j + 1;
    proof {
        assert(bytes@.subrange(dstart, j as int) =~= seq![bytes@[dstart]]);
        assert(bytes@.subrange(dstart, j as int).drop_last() =~= Seq::<u8>::empty());
        assert(bytes@.subrange(dstart, j as int).last() == bytes@[dstart]);
        assert(digits_val(bytes@.subrange(dstart, j as int)) == digits_val(Seq::<u8>::empty()) * 10
            + (bytes@[dstart] - 48));
        assert(mag == digits_val(bytes@.subrange(dstart, j as int)));
    }
    while j < n && 48 <= bytes[j] && bytes[j] <= 57
        invariant
            pos < j <= n,
            dstart < j as int,
            dstart == pos + if neg {
                1int
            } else {
                0int
            },
            n == bytes@.len(),
            neg == (bytes@[pos as int] == 45),
            forall|k: int| dstart <= k < j ==> is_digit(#[trigger] bytes@[k]),
            mag == digits_val(bytes@.subrange(dstart, j as int)),
        decreases n - j,
    {
        let d = (bytes[j] - 48) as u64;
        if mag > (u64::MAX - d) / 10 {
            proof {
                assert forall|q: int, end: int|
                    #[trigger] canonical_at(bytes@, pos as int, end, JVal::Int(q)) implies
                    false by {
                    lemma_int_candidate(bytes@, pos as int, end, JVal::Int(q)->Int_0);
                    let mm = if q < 0 {
                        (-q) as nat
                    } else {
                        q as nat
                    };
                    let ds = bytes@.subrange(dstart, end);
                    assert((j as int) < end);
                    assert(bytes@.subrange(dstart, j + 1) =~= ds.take(j + 1 - dstart));
                    assert(bytes@.subrange(dstart, j as int) =~= ds.take(j - dstart));
                    assert(ds.take(j + 1 - dstart).drop_last() =~= ds.take(j - dstart));
                    assert(digits_val(ds.take(j + 1 - dstart)) == mag * 10 + d);
                    lemma_digits_val_take_le(ds, j + 1 - dstart);
                    assert(mag * 10 + d <= mm);
                    assert(mag * 10 > u64::MAX - d) by {
                        vstd::arithmetic::div_mod::lemma_fundamental_div_mod(
                            (u64::MAX - d) as int,
                            10,
                        );
                    }
                }
            }
            return None;
        }
        mag = mag * 10 + d;
        proof {
            assert(bytes@.subrange(dstart, j + 1).drop_last() =~= bytes@.subrange(
                dstart,
                j as int,
            ));
            assert(bytes@.subrange(dstart, j + 1).last() == bytes@[j as int]);
        }
        j = j + 1;
    }
    proof {
        assert forall|q: int, end: int|
            #[trigger] canonical_at(bytes@, pos as int, end, JVal::Int(q)) implies ({
            let mm = if q < 0 {
                (-q) as nat
            } else {
                q as nat
            };
            j == end && mag == mm && neg == (q < 0)
        }) by {
            lemma_int_candidate(bytes@, pos as int, end, JVal::Int(q)->Int_0);
            let mm = if q < 0 {
                (-q) as nat
            } else {
                q as nat
            };
            if (j as int) < end {
                assert(is_digit(bytes@[j as int]));
            }
            if (j as int) > end {
                assert(end < bytes@.len());
                assert(is_digit(bytes@[end]));
            }
            assert(j == end);
            assert(bytes@.subrange(dstart, j as int) =~= bytes@.subrange(dstart, end));
        }
    }
    if neg {
        if mag > 9223372036854775808u64 {
            proof {
                assert forall|q: int, end: int|
                    #[trigger] canonical_at(bytes@, pos as int, end, JVal::Int(q)) implies
                    false by {
                    lemma_int_candidate(bytes@, pos as int, end, JVal::Int(q)->Int_0);
                }
            }
            return None;
        }
        if mag == 9223372036854775808u64 {
            return Some((i64::MIN, j));
        }
        Some((-(mag as i64), j))
    } else {
        if mag > 9223372036854775807u64 {
            proof {
                assert forall|q: int, end: int|
                    #[trigger] canonical_at(bytes@, pos as int, end, JVal::Int(q)) implies
                    false by {
                    lemma_int_candidate(bytes@, pos as int, end, JVal::Int(q)->Int_0);
                }
            }
            return None;
        }
        Some((mag as i64, j))
    }
}


/// What the canonical text of an array forces on the surrounding bytes.
proof fn lemma_arr_candidate(bytes: Seq<u8>, pos: int, end: int, xs: Seq<JVal>)
    requires
        canonical_at(bytes, pos, end, JVal::Arr(xs)),
    ensures
        ({
            let body = jarr_bytes(xs);
            &&& end == pos + 2 + body.len()
            &&& bytes[pos] == 91
            &&& bytes[end - 1] == 93
            &&& (forall|i: int| 0 <= i < body.len() ==> bytes[pos + 1 + i] == body[i])
            &&& ints_ok_seq(xs)
        }),
{
    let body = jarr_bytes(xs);
    assert(bytes.subrange(pos, end) == seq![91u8] + body + seq![93u8]);
    assert(bytes.subrange(pos, end).len() == 2 + body.len());
    assert(forall|i: int|
        pos <= i < end ==> bytes[i] == #[trigger] bytes.subrange(pos, end)[i - pos]);
    assert(bytes[pos] == (seq![91u8] + body + seq![93u8])[0]);
    assert(bytes[end - 1] == (seq![91u8] + body + seq![93u8])[1 + body.len() as int]);
    assert forall|i: int| 0 <= i < body.len() implies bytes[pos + 1 + i] == body[i] by {
        assert(bytes[pos + 1 + i] == bytes.subrange(pos, end)[1 + i]);
        assert((seq![91u8] + body + seq![93u8])[1 + i] == body[i]);
    }
}

/// What the canonical text of an object forces on the surrounding bytes.
proof fn lemma_obj_candidate(bytes: Seq<u8>, pos: int, end: int, fs: Seq<(Seq<char>, JVal)>)
    requires
        canonical_at(bytes, pos, end, JVal::Obj(fs)),
    ensures
        ({
            let body = jobj_bytes(fs);
            &&& end == pos + 2 + body.len()
            &&& bytes[pos] == 123
            &&& bytes[end - 1] == 125
            &&& (forall|i: int| 0 <= i < body.len() ==> bytes[pos + 1 + i] == body[i])
            &&& ints_ok_fields(fs)
        }),
{
    let body = jobj_bytes(fs);
    assert(bytes.subrange(pos, end) == seq![123u8] + body + seq![125u8]);
    assert(bytes.subrange(pos, end).len() == 2 + body.len());
    assert(forall|i: int|
        pos <= i < end ==> bytes[i] == #[trigger] bytes.subrange(pos, end)[i - pos]);
    assert(bytes[pos] == (seq![123u8] + body + seq![125u8])[0]);
    assert(bytes[end - 1] == (seq![123u8] + body + seq![125u8])[1 + body.len() as int]);
    assert forall|i: int| 0 <= i < body.len() implies bytes[pos + 1 + i] == body[i] by {
        assert(bytes[pos + 1 + i] == bytes.subrange(pos, end)[1 + i]);
        assert((seq![123u8] + body + seq![125u8])[1 + i] == body[i]);
    }
}

/// The bytes of an array body's first `k` elements, each with its
/// trailing comma.
pub open spec fn arr_pre(xs: Seq<JVal>, k: int) -> Seq<u8>
    decreases k,
{
    if k <= 0 {
        Seq::empty()
    } else {
        jbytes(xs[0]) + seq![44u8] + arr_pre(xs.drop_first(), k - 1)
    }
}

/// The bytes of an object body's first `k` fields, each with its
/// trailing comma.
pub open spec fn obj_pre(fs: Seq<(Seq<char>, JVal)>, k: int) -> Seq<u8>
    decreases k,
{
    if k <= 0 {
        Seq::empty()
    } else {
        str_bytes(fs[0].0) + seq![58u8] + jbytes(fs[0].1) + seq![44u8] + obj_pre(
            fs.drop_first(),
            k - 1,
        )
    }
}

/// An array body splits at element `k` into the finished prefix, the
/// element's bytes, and a comma or the closing delimiter's position.
proof fn lemma_arr_decomp(xs: Seq<JVal>, k: int)
    requires
        0 <= k < xs.len(),
    ensures
        k == xs.len() - 1 ==> jarr_bytes(xs) == arr_pre(xs, k) + jbytes(xs[k]),
        k < xs.len() - 1 ==> jarr_bytes(xs) == arr_pre(xs, k) + jbytes(xs[k]) + seq![44u8]
            + jarr_bytes(xs.skip(k + 1)),
        arr_pre(xs, k + 1) == arr_pre(xs, k) + jbytes(xs[k]) + seq![44u8],
    decreases k,
{
    lemma_jarr_front(xs);
    if k == 0 {
        assert(arr_pre(xs, 0) =~= Seq::<u8>::empty());
        assert(arr_pre(xs, 1) == jbytes(xs[0]) + seq![44u8] + arr_pre(xs.drop_first(), 0));
        assert(arr_pre(xs, 1) =~= jbytes(xs[0]) + seq![44u8]);
        if k == xs.len() - 1 {
            assert(arr_pre(xs, 0) + jbytes(xs[0]) =~= jbytes(xs[0]));
        } else {
            assert(xs.drop_first() =~= xs.skip(1));
            assert(arr_pre(xs, 0) + jbytes(xs[0]) + seq![44u8] + jarr_bytes(xs.skip(1)) =~= jbytes(
                xs[0],
            ) + seq![44u8] + jarr_bytes(xs.drop_first()));
        }
    } else {
        lemma_arr_decomp(xs.drop_first(), k - 1);
        assert(xs.drop_first()[k - 1] == xs[k]);
        assert(xs.drop_first().skip(k) =~= xs.skip(k + 1));
        assert(xs.len() > 1);
        let head = jbytes(xs[0]) + seq![44u8];
        assert(jarr_bytes(xs) == jbytes(xs[0]) + seq![44u8] + jarr_bytes(xs.drop_first()));
        if k == xs.len() - 1 {
            assert(jarr_bytes(xs.drop_first()) == arr_pre(xs.drop_first(), k - 1) + jbytes(xs[k]));
            assert(jbytes(xs[0]) + seq![44u8] + (arr_pre(xs.drop_first(), k - 1) + jbytes(
                xs[k],
            )) =~= (jbytes(xs[0]) + seq![44u8] + arr_pre(xs.drop_first(), k - 1)) + jbytes(xs[k]));
        } else {
            assert(jarr_bytes(xs.drop_first()) == arr_pre(xs.drop_first(), k - 1) + jbytes(xs[k])
                + seq![44u8] + jarr_bytes(xs.drop_first().skip(k)));
            assert(jbytes(xs[0]) + seq![44u8] + (arr_pre(xs.drop_first(), k - 1) + jbytes(xs[k])
                + seq![44u8] + jarr_bytes(xs.skip(k + 1))) =~= (jbytes(xs[0]) + seq![44u8]
                + arr_pre(xs.drop_first(), k - 1)) + jbytes(xs[k]) + seq![44u8] + jarr_bytes(
                xs.skip(k + 1),
            ));
        }
        assert(arr_pre(xs, k + 1) == head + arr_pre(xs.drop_first(), k));
        assert(arr_pre(xs.drop_first(), k) == arr_pre(xs.drop_first(), k - 1) + jbytes(xs[k])
            + seq![44u8]);
        assert(head + (arr_pre(xs.drop_first(), k - 1) + jbytes(xs[k]) + seq![44u8]) =~= (head
            + arr_pre(xs.drop_first(), k - 1)) + jbytes(xs[k]) + seq![44u8]);
    }
}

/// An object body splits at field `k` the same way.
proof fn lemma_obj_decomp(fs: Seq<(Seq<char>, JVal)>, k: int)
    requires
        0 <= k < fs.len(),
    ensures
        k == fs.len() - 1 ==> jobj_bytes(fs) == obj_pre(fs, k) + str_bytes(fs[k].0) + seq![58u8]
            + jbytes(fs[k].1),
        k < fs.len() - 1 ==> jobj_bytes(fs) == obj_pre(fs, k) + str_bytes(fs[k].0) + seq![58u8]
            + jbytes(fs[k].1) + seq![44u8] + jobj_bytes(fs.skip(k + 1)),
        obj_pre(fs, k + 1) == obj_pre(fs, k) + str_bytes(fs[k].0) + seq![58u8] + jbytes(fs[k].1)
            + seq![44u8],
    decreases k,
{
    lemma_jobj_front(fs);
    let unit = str_bytes(fs[k].0) + seq![58u8] + jbytes(fs[k].1);
    let head = str_bytes(fs[0].0) + seq![58u8] + jbytes(fs[0].1);
    if k == 0 {
        assert(obj_pre(fs, 0) =~= Seq::<u8>::empty());
        assert(obj_pre(fs, 1) == str_bytes(fs[0].0) + seq![58u8] + jbytes(fs[0].1) + seq![44u8]
            + obj_pre(fs.drop_first(), 0));
        assert(obj_pre(fs.drop_first(), 0) =~= Seq::<u8>::empty());
        assert(str_bytes(fs[0].0) + seq![58u8] + jbytes(fs[0].1) + seq![44u8] + obj_pre(
            fs.drop_first(),
            0,
        ) =~= head + seq![44u8]);
        if k == fs.len() - 1 {
            assert(obj_pre(fs, 0) + str_bytes(fs[0].0) + seq![58u8] + jbytes(fs[0].1) =~= head);
        } else {
            assert(fs.drop_first() =~= fs.skip(1));
            assert(obj_pre(fs, 0) + str_bytes(fs[0].0) + seq![58u8] + jbytes(fs[0].1) + seq![44u8]
                + jobj_bytes(fs.skip(1)) =~= head + seq![44u8] + jobj_bytes(fs.drop_first()));
        }
    } else {
        lemma_obj_decomp(fs.drop_first(), k - 1);
        assert(fs.drop_first()[k - 1] == fs[k]);
        assert(fs.drop_first().skip(k) =~= fs.skip(k + 1));
        assert(fs.len() > 1);
        assert(jobj_bytes(fs) == head + seq![44u8] + jobj_bytes(fs.drop_first()));
        let hpre = head + seq![44u8];
        if k == fs.len() - 1 {
            assert(jobj_bytes(fs.drop_first()) == obj_pre(fs.drop_first(), k - 1) + str_bytes(
                fs[k].0,
            ) + seq![58u8] + jbytes(fs[k].1));
            assert(head + seq![44u8] + (obj_pre(fs.drop_first(), k - 1) + str_bytes(fs[k].0)
                + seq![58u8] + jbytes(fs[k].1)) =~= (hpre + obj_pre(fs.drop_first(), k - 1))
                + str_bytes(fs[k].0) + seq![58u8] + jbytes(fs[k].1));
            assert(obj_pre(fs, k) =~= hpre + obj_pre(fs.drop_first(), k - 1));
        } else {
            assert(jobj_bytes(fs.drop_first()) == obj_pre(fs.drop_first(), k - 1) + str_bytes(
                fs[k].0,
            ) + seq![58u8] + jbytes(fs[k].1) + seq![44u8] + jobj_bytes(fs.drop_first().skip(k)));
            assert(head + seq![44u8] + (obj_pre(fs.drop_first(), k - 1) + str_bytes(fs[k].0)
                + seq![58u8] + jbytes(fs[k].1) + seq![44u8] + jobj_bytes(fs.skip(k + 1))) =~= (hpre
                + obj_pre(fs.drop_first(), k - 1)) + str_bytes(fs[k].0) + seq![58u8] + jbytes(
                fs[k].1,
            ) + seq![44u8] + jobj_bytes(fs.skip(k + 1)));
            assert(obj_pre(fs, k) =~= hpre + obj_pre(fs.drop_first(), k - 1));
        }
        assert(obj_pre(fs, k + 1) == hpre + obj_pre(fs.drop_first(), k));
        assert(obj_pre(fs.drop_first(), k) == obj_pre(fs.drop_first(), k - 1) + str_bytes(fs[k].0)
            + seq![58u8] + jbytes(fs[k].1) + seq![44u8]);
        assert(hpre + (obj_pre(fs.drop_first(), k - 1) + str_bytes(fs[k].0) + seq![58u8] + jbytes(
            fs[k].1,
        ) + seq![44u8]) =~= (hpre + obj_pre(fs.drop_first(), k - 1)) + str_bytes(fs[k].0)
            + seq![58u8] + jbytes(fs[k].1) + seq![44u8]);
    }
}


/// The scan state of the array reader: `k` elements parsed, the cursor
/// at element `k`'s first byte.
pub open spec fn arr_scan(xs: Seq<JVal>, parsed: Seq<JVal>, rel: int, k: int) -> bool {
    &&& 0 <= k < xs.len()
    &&& parsed == xs.take(k)
    &&& rel == arr_pre(xs, k).len()
}

/// The scan state of the object reader: `k` fields parsed, the cursor
/// at field `k`'s opening quote.
pub open spec fn obj_scan(fs: Seq<(Seq<char>, JVal)>, parsed: Seq<(Seq<char>, JVal)>, rel: int, k: int) -> bool {
    &&& 0 <= k < fs.len()
    &&& parsed == fs.take(k)
    &&& rel == obj_pre(fs, k).len()
}

/// Reads one JSON value starting at `pos` (whitespace allowed first) and
/// returns it with the position just past it.

/// The array step facts at cursor `j0` for candidate `(v, end)`.
pub open spec fn arr_step_at(
    bytes: Seq<u8>,
    vpos: int,
    j0: int,
    parsed: Seq<JVal>,
    end: int,
    xs: Seq<JVal>,
    kk: int,
) -> bool {
    &&& arr_scan(xs, parsed, j0 - (vpos + 1), kk)
    &&& canonical_at(bytes, j0, j0 + jbytes(xs[kk]).len(), xs[kk])
    &&& (kk < xs.len() - 1 ==> bytes[j0 + jbytes(xs[kk]).len() as int] == 44)
    &&& (kk == xs.len() - 1 ==> j0 + jbytes(xs[kk]).len() == end - 1 && bytes[end - 1] == 93)
}

/// The object step facts at cursor `j0` for candidate `(v, end)`.
pub open spec fn obj_step_at(
    bytes: Seq<u8>,
    vpos: int,
    j0: int,
    parsed: Seq<(Seq<char>, JVal)>,
    end: int,
    fs: Seq<(Seq<char>, JVal)>,
    kk: int,
) -> bool {
    &&& obj_scan(fs, parsed, j0 - (vpos + 1), kk)
    &&& canonical_at(bytes, j0, j0 + str_bytes(fs[kk].0).len(), JVal::Str(fs[kk].0))
    &&& bytes[j0 + str_bytes(fs[kk].0).len() as int] == 58
    &&& canonical_at(
        bytes,
        j0 + str_bytes(fs[kk].0).len() + 1,
        j0 + str_bytes(fs[kk].0).len() + 1 + jbytes(fs[kk].1).len(),
        fs[kk].1,
    )
    &&& (kk < fs.len() - 1 ==> bytes[j0 + str_bytes(fs[kk].0).len() + 1 + jbytes(fs[kk].1).len()]
        == 44)
    &&& (kk == fs.len() - 1 ==> j0 + str_bytes(fs[kk].0).len() + 1 + jbytes(fs[kk].1).len() == end
        - 1 && bytes[end - 1] == 125)
}

/// One step of the array reader: the element at the cursor is canonical
/// text followed by a comma or the closing bracket.
proof fn lemma_arr_step(bytes: Seq<u8>, vpos: int, j0: int, parsed: Seq<JVal>)
    requires
        forall|v: JVal, end: int|
            #[trigger] canonical_at(bytes, vpos, end, v) ==> (v is Arr && exists|kk: int|
                #[trigger] arr_scan(v->Arr_0, parsed, j0 - (vpos + 1), kk)),
    ensures
        forall|v: JVal, end: int|
            #[trigger] canonical_at(bytes, vpos, end, v) ==> exists|kk: int|
                #[trigger] arr_step_at(bytes, vpos, j0, parsed, end, v->Arr_0, kk),
{
    assert forall|v: JVal, end: int|
        #[trigger] canonical_at(bytes, vpos, end, v) implies exists|kk: int|
        #[trigger] arr_step_at(bytes, vpos, j0, parsed, end, v->Arr_0, kk) by {
        let xs = v->Arr_0;
        let kk = choose|kk: int|
            #[trigger] arr_scan(xs, parsed, j0 - (vpos + 1), kk);
        lemma_arr_candidate(bytes, vpos, end, xs);
        lemma_arr_decomp(xs, kk);
        lemma_ints_ok_seq_index(xs);
        let body = jarr_bytes(xs);
        let off = arr_pre(xs, kk).len() as int;
        let el = jbytes(xs[kk]);
        assert forall|t: int| 0 <= t < el.len() implies bytes[j0 + t] == el[t] by {
            if kk == xs.len() - 1 {
                assert(body == arr_pre(xs, kk) + el);
                assert(body[off + t] == el[t]);
            } else {
                assert(body == arr_pre(xs, kk) + el + seq![44u8] + jarr_bytes(
                    xs.skip(kk + 1),
                ));
                assert(body[off + t] == el[t]);
            }
            assert(bytes[vpos + 1 + (off + t)] == body[off + t]);
        }
        assert(bytes.subrange(j0, j0 + el.len() as int) =~= el);
        if kk < xs.len() - 1 {
            assert(body[off + el.len() as int] == 44);
            assert(bytes[j0 + el.len() as int] == 44);
        } else {
            assert(j0 + el.len() == vpos + 1 + body.len());
            assert(bytes[end - 1] == 93);
        }
        assert(canonical_at(bytes, j0, j0 + el.len() as int, xs[kk]));
        assert(arr_step_at(bytes, vpos, j0, parsed, end, xs, kk));
    }

}

/// One step of the object reader: the field at the cursor is a
/// canonical quoted key, a colon, canonical value text, then a comma or
/// the closing brace.
proof fn lemma_obj_step(bytes: Seq<u8>, vpos: int, j0: int, parsed: Seq<(Seq<char>, JVal)>)
    requires
        forall|v: JVal, end: int|
            #[trigger] canonical_at(bytes, vpos, end, v) ==> (v is Obj && exists|kk: int|
                #[trigger] obj_scan(v->Obj_0, parsed, j0 - (vpos + 1), kk)),
    ensures
        forall|v: JVal, end: int|
            #[trigger] canonical_at(bytes, vpos, end, v) ==> exists|kk: int|
                #[trigger] obj_step_at(bytes, vpos, j0, parsed, end, v->Obj_0, kk),
{
    assert forall|v: JVal, end: int|
        #[trigger] canonical_at(bytes, vpos, end, v) implies exists|kk: int|
        #[trigger] obj_step_at(bytes, vpos, j0, parsed, end, v->Obj_0, kk) by {
        let fs = v->Obj_0;
        let kk = choose|kk: int|
            #[trigger] obj_scan(fs, parsed, j0 - (vpos + 1), kk);
        lemma_obj_candidate(bytes, vpos, end, fs);
        lemma_obj_decomp(fs, kk);
        lemma_ints_ok_fields_index(fs);
        let body = jobj_bytes(fs);
        let off = obj_pre(fs, kk).len() as int;
        let kb = str_bytes(fs[kk].0);
        let vb = jbytes(fs[kk].1);
        let unit = kb + seq![58u8] + vb;
        assert forall|t: int| 0 <= t < unit.len() implies bytes[j0 + t] == unit[t] by {
            if kk == fs.len() - 1 {
                assert(body == obj_pre(fs, kk) + kb + seq![58u8] + vb);
                assert(body[off + t] == (obj_pre(fs, kk) + kb + seq![58u8] + vb)[off
                    + t]);
                assert((obj_pre(fs, kk) + kb + seq![58u8] + vb)[off + t] == unit[t]);
            } else {
                assert(body == obj_pre(fs, kk) + kb + seq![58u8] + vb + seq![44u8]
                    + jobj_bytes(fs.skip(kk + 1)));
                assert(body[off + t] == unit[t]);
            }
            assert(bytes[vpos + 1 + (off + t)] == body[off + t]);
        }
        assert forall|t: int|
            0 <= t < kb.len() implies bytes.subrange(j0, j0 + kb.len() as int)[t]
            == kb[t] by {
            assert(bytes[j0 + t] == unit[t]);
            assert(unit[t] == (kb + seq![58u8] + vb)[t]);
            assert((kb + seq![58u8] + vb)[t] == kb[t]);
        }
        assert(bytes.subrange(j0, j0 + kb.len() as int) =~= kb);
        assert(bytes[j0 + kb.len() as int] == unit[kb.len() as int]);
        assert(unit[kb.len() as int] == (kb + seq![58u8] + vb)[kb.len() as int]);
        assert(unit[kb.len() as int] == 58);
        assert forall|t: int|
            0 <= t < vb.len() implies bytes.subrange(
            j0 + kb.len() + 1,
            j0 + kb.len() + 1 + vb.len() as int,
        )[t] == vb[t] by {
            assert(bytes[j0 + (kb.len() + 1 + t)] == unit[kb.len() + 1 + t]);
            assert(unit[kb.len() + 1 + t] == (kb + seq![58u8] + vb)[kb.len() + 1 + t]);
            assert((kb + seq![58u8] + vb)[kb.len() + 1 + t] == vb[t]);
        }
        assert(bytes.subrange(
            j0 + kb.len() + 1,
            j0 + kb.len() + 1 + vb.len() as int,
        ) =~= vb);
        if kk < fs.len() - 1 {
            assert(body[off + unit.len() as int] == 44);
            assert(bytes[j0 + unit.len() as int] == 44);
        } else {
            assert(j0 + unit.len() == vpos + 1 + body.len());
            assert(bytes[end - 1] == 125);
        }
        assert(canonical_at(bytes, j0, j0 + kb.len() as int, JVal::Str(fs[kk].0)));
        assert(canonical_at(
            bytes,
            j0 + kb.len() + 1,
            j0 + kb.len() + 1 + vb.len() as int,
            fs[kk].1,
        ));
        assert(obj_step_at(bytes, vpos, j0, parsed, end, fs, kk));
    }

}

/// The array reader's loop over `element (, element)* ]`, starting at
/// the first element.
#[verifier::loop_isolation(false)]
#[verifier::rlimit(100)]
#[verifier::spinoff_prover]
fn parse_arr_tail(bytes: &[u8], vpos: usize, start: usize) -> (r: Option<(JsonValue, usize)>)
    requires
        vpos + 1 == start,
        start <= bytes@.len(),
        forall|v: JVal, end: int|
            #[trigger] canonical_at(bytes@, vpos as int, end, v) ==> (v is Arr && v->Arr_0.len()
                > 0),
    ensures
        r matches Some(p) ==> vpos < p.1 <= bytes@.len(),
        forall|v: JVal, end: int|
            #[trigger] canonical_at(bytes@, vpos as int, end, v) ==> (r matches Some(p)
                && p.0.jval() == v && p.1 == end),
    decreases bytes@.len() - vpos, 0int,
{
    let mut items: Vec<JsonValue> = Vec::new();
    proof {
        assert forall|v: JVal, end: int|
            #[trigger] canonical_at(bytes@, vpos as int, end, v) implies exists|kk: int|
            #[trigger] arr_scan(v->Arr_0, jval_seq(items@), start - (vpos + 1) as int, kk) by {
            assert(jval_seq(items@) =~= v->Arr_0.take(0));
            assert(arr_pre(v->Arr_0, 0) =~= Seq::<u8>::empty());
            assert(arr_scan(v->Arr_0, jval_seq(items@), start - (vpos + 1) as int, 0));
        }
    }
    let mut j = start;
    loop
        invariant
            vpos < j <= bytes@.len(),
            forall|v: JVal, end: int|
                #[trigger] canonical_at(bytes@, vpos as int, end, v) ==> (v is Arr && exists|
                    kk: int,
                | #[trigger] arr_scan(v->Arr_0, jval_seq(items@), j - (vpos + 1) as int, kk)),
        decreases bytes@.len() - j,
    {
        let ghost j0 = j as int;
        let ghost items0 = items@;
        proof {
            lemma_arr_step(bytes@, vpos as int, j0, jval_seq(items0));
        }
        let parsed = parse_value(bytes, j);
        match parsed {
            Some((pv, j2)) => {
                items.push(pv);
                let j3 = skip_ws(bytes, j2);
                if j3 < bytes.len() && bytes[j3] == 44 {
                    j = j3 + 1;
                    proof {
                        assert forall|v: JVal, end: int|
                            #[trigger] canonical_at(bytes@, vpos as int, end, v) implies (v
                            is Arr && exists|kk: int|
                            #[trigger] arr_scan(
                            v->Arr_0,
                            jval_seq(items@),
                            j - (vpos + 1) as int,
                            kk,
                        )) by {
                            let xs = v->Arr_0;
                            let kk = choose|kk: int| #[trigger] arr_step_at(bytes@, vpos as int, j0, jval_seq(items0), end, xs, kk);
                            assert(pv.jval() == xs[kk] && j2 == j0 + jbytes(xs[kk]).len());
                            lemma_arr_candidate(bytes@, vpos as int, end, xs);
                            if kk == xs.len() - 1 {
                                assert(bytes@[j2 as int] == 93);
                            }
                            assert(kk < xs.len() - 1);
                            lemma_arr_decomp(xs, kk);
                            assert(items@.drop_last() =~= items0);
                            assert(jval_seq(items@) =~= jval_seq(items0).push(pv.jval()));
                            assert(xs.take(kk + 1) =~= xs.take(kk).push(xs[kk]));
                            assert(arr_scan(xs, jval_seq(items@), j - (vpos + 1) as int, kk + 1));
                        }
                    }
                } else if j3 < bytes.len() && bytes[j3] == 93 {
                    proof {
                        assert forall|v: JVal, end: int|
                            #[trigger] canonical_at(bytes@, vpos as int, end, v) implies (
                        JsonValue::Arr(items).jval() == v && j3 + 1 == end) by {
                            let xs = v->Arr_0;
                            let kk = choose|kk: int| #[trigger] arr_step_at(bytes@, vpos as int, j0, jval_seq(items0), end, xs, kk);
                            assert(pv.jval() == xs[kk] && j2 == j0 + jbytes(xs[kk]).len());
                            if kk < xs.len() - 1 {
                                assert(bytes@[j2 as int] == 44);
                            }
                            assert(kk == xs.len() - 1);
                            assert(items@.drop_last() =~= items0);
                            assert(jval_seq(items@) =~= jval_seq(items0).push(pv.jval()));
                            assert(xs.take(kk + 1) =~= xs.take(kk).push(xs[kk]));
                            assert(xs.take(xs.len() as int) =~= xs);
                            assert(jval_seq(items@) == xs);
                        }
                    }
                    return Some((JsonValue::Arr(items), j3 + 1));
                } else {
                    proof {
                        assert forall|v: JVal, end: int|
                            #[trigger] canonical_at(bytes@, vpos as int, end, v) implies
                            false by {
                            let xs = v->Arr_0;
                            let kk = choose|kk: int| #[trigger] arr_step_at(bytes@, vpos as int, j0, jval_seq(items0), end, xs, kk);
                            assert(pv.jval() == xs[kk] && j2 == j0 + jbytes(xs[kk]).len());
                            lemma_arr_candidate(bytes@, vpos as int, end, xs);
                            if kk < xs.len() - 1 {
                                assert(bytes@[j2 as int] == 44);
                                lemma_arr_decomp(xs, kk);
                                let sk = xs.skip(kk + 1);
                                lemma_jarr_front(sk);
                                lemma_jbytes_first(sk[0]);
                                if sk.len() == 1 {
                                    assert(jarr_bytes(sk) == jbytes(sk[0]));
                                }
                                assert(jarr_bytes(sk).len() >= 1);
                                assert(j2 < end - 1);
                            } else {
                                assert(j2 == end - 1);
                                assert(bytes@[j2 as int] == 93);
                            }
                            assert(j2 < bytes@.len());
                            assert(!is_ws(bytes@[j2 as int]));
                            assert(j3 == j2);
                        }
                    }
                    return None;
                }
            },
            None => {
                proof {
                    assert forall|v: JVal, end: int|
                        #[trigger] canonical_at(bytes@, vpos as int, end, v) implies false by {
                        let xs = v->Arr_0;
                        let kk = choose|kk: int| #[trigger] arr_step_at(bytes@, vpos as int, j0, jval_seq(items0), end, xs, kk);
                    }
                }
                return None;
            },
        }
    }
}

/// Reads one `"key":value` unit of an object body, the cursor at the
/// key's opening quote.
#[verifier::loop_isolation(false)]
#[verifier::rlimit(100)]
#[verifier::spinoff_prover]
fn parse_obj_field(
    bytes: &[u8],
    Ghost(vpos): Ghost<int>,
    Ghost(parsed): Ghost<Seq<(Seq<char>, JVal)>>,
    j: usize,
) -> (r: Option<(String, JsonValue, usize)>)
    requires
        j <= bytes@.len(),
        vpos < j,
        forall|v: JVal, end: int|
            #[trigger] canonical_at(bytes@, vpos, end, v) ==> (v is Obj && exists|kk: int|
                #[trigger] obj_step_at(bytes@, vpos, j as int, parsed, end, v->Obj_0, kk)),
    ensures
        r matches Some(t) ==> j < t.2 <= bytes@.len(),
        forall|v: JVal, end: int|
            #[trigger] canonical_at(bytes@, vpos, end, v) ==> exists|kk: int|
                {
                    &&& #[trigger] obj_step_at(bytes@, vpos, j as int, parsed, end, v->Obj_0, kk)
                    &&& r matches Some(t)
                    &&& t.0@ == v->Obj_0[kk].0
                    &&& t.1.jval() == v->Obj_0[kk].1
                    &&& t.2 == j + str_bytes(v->Obj_0[kk].0).len() + 1 + jbytes(
                        v->Obj_0[kk].1,
                    ).len()
                    &&& t.2 <= end - 1
                    &&& (kk < v->Obj_0.len() - 1 ==> bytes@[t.2 as int] == 44 && t.2 < end - 1)
                    &&& (kk == v->Obj_0.len() - 1 ==> t.2 == end - 1 && bytes@[t.2 as int] == 125)
                    &&& !is_ws(bytes@[t.2 as int])
                },
    decreases bytes@.len() - j, 0int,
{
    let ghost j0 = j as int;
    let kpos = skip_ws(bytes, j);
    if kpos >= bytes.len() || bytes[kpos] != 34 {
        proof {
            assert forall|v: JVal, end: int|
                #[trigger] canonical_at(bytes@, vpos, end, v) implies false by {
                let fs = v->Obj_0;
                let kk = choose|kk: int|
                    #[trigger] obj_step_at(bytes@, vpos, j0, parsed, end, fs, kk);
                assert(bytes@[j0] == str_bytes(fs[kk].0)[0]);
                assert(str_bytes(fs[kk].0)[0] == 34);
                assert(!is_ws(bytes@[j0]));
                assert(kpos == j0);
            }
        }
        return None;
    }
    let key = parse_string(bytes, kpos);
    match key {
        Some((ks, j2)) => {
            proof {
                assert forall|v: JVal, end: int|
                    #[trigger] canonical_at(bytes@, vpos, end, v) implies exists|kk: int|
                    {
                        &&& #[trigger] obj_step_at(bytes@, vpos, j0, parsed, end, v->Obj_0, kk)
                        &&& ks@ == v->Obj_0[kk].0
                        &&& j2 == j0 + str_bytes(v->Obj_0[kk].0).len()
                        &&& bytes@[j2 as int] == 58
                        &&& j2 < bytes@.len()
                    } by {
                    let fs = v->Obj_0;
                    let kk = choose|kk: int|
                        #[trigger] obj_step_at(bytes@, vpos, j0, parsed, end, fs, kk);
                    assert(bytes@[j0] == str_bytes(fs[kk].0)[0]);
                    assert(str_bytes(fs[kk].0)[0] == 34);
                    assert(!is_ws(bytes@[j0]));
                    assert(kpos == j0);
                    assert(canonical_at(
                        bytes@,
                        kpos as int,
                        j0 + str_bytes(fs[kk].0).len(),
                        JVal::Str(fs[kk].0),
                    ));
                    assert(ks@ == fs[kk].0 && j2 == j0 + str_bytes(fs[kk].0).len());
                    assert(bytes@[j2 as int] == 58);
                    assert(obj_step_at(bytes@, vpos, j0, parsed, end, v->Obj_0, kk) && ks@
                        == v->Obj_0[kk].0 && j2 == j0 + str_bytes(v->Obj_0[kk].0).len() && bytes@[
                        j2 as int] == 58 && j2 < bytes@.len());
                }
            }
            let j3 = skip_ws(bytes, j2);
            if j3 >= bytes.len() || bytes[j3] != 58 {
                proof {
                    assert forall|v: JVal, end: int|
                        #[trigger] canonical_at(bytes@, vpos, end, v) implies false by {
                        let fs = v->Obj_0;
                        let kk = choose|kk: int|
                            {
                                &&& #[trigger] obj_step_at(bytes@, vpos, j0, parsed, end, fs, kk)
                                &&& ks@ == fs[kk].0
                                &&& j2 == j0 + str_bytes(fs[kk].0).len()
                                &&& bytes@[j2 as int] == 58
                                &&& j2 < bytes@.len()
                            };
                        assert(!is_ws(bytes@[j2 as int]));
                        assert(j3 == j2);
                    }
                }
                return None;
            }
            let parsed_value = parse_value(bytes, j3 + 1);
            match parsed_value {
                Some((pv, j4)) => {
                    proof {
                        assert forall|v: JVal, end: int|
                            #[trigger] canonical_at(bytes@, vpos, end, v) implies exists|kk: int|
                            {
                                &&& #[trigger] obj_step_at(
                                    bytes@,
                                    vpos,
                                    j as int,
                                    parsed,
                                    end,
                                    v->Obj_0,
                                    kk,
                                )
                                &&& ks@ == v->Obj_0[kk].0
                                &&& pv.jval() == v->Obj_0[kk].1
                                &&& j4 == j + str_bytes(v->Obj_0[kk].0).len() + 1 + jbytes(
                                    v->Obj_0[kk].1,
                                ).len()
                                &&& j4 <= end - 1
                                &&& (kk < v->Obj_0.len() - 1 ==> bytes@[j4 as int] == 44 && j4 < end
                                    - 1)
                                &&& (kk == v->Obj_0.len() - 1 ==> j4 == end - 1 && bytes@[
                                    j4 as int] == 125)
                                &&& !is_ws(bytes@[j4 as int])
                            } by {
                            let fs = v->Obj_0;
                            let kk = choose|kk: int|
                                {
                                    &&& #[trigger] obj_step_at(bytes@, vpos, j0, parsed, end, fs, kk)
                                    &&& ks@ == fs[kk].0
                                    &&& j2 == j0 + str_bytes(fs[kk].0).len()
                                    &&& bytes@[j2 as int] == 58
                                    &&& j2 < bytes@.len()
                                };
                            assert(!is_ws(bytes@[j2 as int]));
                            assert(j3 == j2);
                            assert(canonical_at(
                                bytes@,
                                (j3 + 1) as int,
                                j0 + str_bytes(fs[kk].0).len() + 1 + jbytes(fs[kk].1).len(),
                                fs[kk].1,
                            ));
                            assert(pv.jval() == fs[kk].1 && j4 == j3 + 1 + jbytes(fs[kk].1).len());
                            if kk < fs.len() - 1 {
                                lemma_obj_candidate(bytes@, vpos, end, fs);
                                lemma_obj_decomp(fs, kk);
                                let sk = fs.skip(kk + 1);
                                lemma_jobj_front(sk);
                                if sk.len() == 1 {
                                    assert(jobj_bytes(sk) == str_bytes(sk[0].0) + seq![58u8]
                                        + jbytes(sk[0].1));
                                }
                                assert(jobj_bytes(sk).len() >= 1);
                                assert(j4 < end - 1);
                            }
                            assert(obj_step_at(bytes@, vpos, j as int, parsed, end, v->Obj_0, kk)
                                && ks@ == v->Obj_0[kk].0 && pv.jval() == v->Obj_0[kk].1 && j4 == j
                                + str_bytes(v->Obj_0[kk].0).len() + 1 + jbytes(
                                v->Obj_0[kk].1,
                            ).len() && j4 <= end - 1 && (kk < v->Obj_0.len() - 1 ==> bytes@[
                                j4 as int] == 44 && j4 < end - 1) && (kk == v->Obj_0.len() - 1
                                ==> j4 == end - 1 && bytes@[j4 as int] == 125) && !is_ws(
                                bytes@[j4 as int],
                            ));
                        }
                    }
                    Some((ks, pv, j4))
                },
                None => {
                    proof {
                        assert forall|v: JVal, end: int|
                            #[trigger] canonical_at(bytes@, vpos, end, v) implies false by {
                            let fs = v->Obj_0;
                            let kk = choose|kk: int|
                                {
                                    &&& #[trigger] obj_step_at(bytes@, vpos, j0, parsed, end, fs, kk)
                                    &&& ks@ == fs[kk].0
                                    &&& j2 == j0 + str_bytes(fs[kk].0).len()
                                    &&& bytes@[j2 as int] == 58
                                    &&& j2 < bytes@.len()
                                };
                            assert(!is_ws(bytes@[j2 as int]));
                            assert(j3 == j2);
                            assert(canonical_at(
                                bytes@,
                                (j3 + 1) as int,
                                j0 + str_bytes(fs[kk].0).len() + 1 + jbytes(fs[kk].1).len(),
                                fs[kk].1,
                            ));
                        }
                    }
                    None
                },
            }
        },
        None => {
            proof {
                assert forall|v: JVal, end: int|
                    #[trigger] canonical_at(bytes@, vpos, end, v) implies false by {
                    let fs = v->Obj_0;
                    let kk = choose|kk: int|
                        #[trigger] obj_step_at(bytes@, vpos, j0, parsed, end, fs, kk);
                    assert(bytes@[j0] == str_bytes(fs[kk].0)[0]);
                    assert(str_bytes(fs[kk].0)[0] == 34);
                    assert(!is_ws(bytes@[j0]));
                    assert(kpos == j0);
                    assert(canonical_at(
                        bytes@,
                        kpos as int,
                        j0 + str_bytes(fs[kk].0).len(),
                        JVal::Str(fs[kk].0),
                    ));
                }
            }
            None
        },
    }
}

/// The object reader's loop over `"key":value (, "key":value)* }`,
/// starting at the first key's quote.
#[verifier::loop_isolation(false)]
#[verifier::rlimit(100)]
#[verifier::spinoff_prover]
fn parse_obj_tail(bytes: &[u8], vpos: usize, start: usize) -> (r: Option<(JsonValue, usize)>)
    requires
        vpos + 1 == start,
        start <= bytes@.len(),
        forall|v: JVal, end: int|
            #[trigger] canonical_at(bytes@, vpos as int, end, v) ==> (v is Obj && v->Obj_0.len()
                > 0),
    ensures
        r matches Some(p) ==> vpos < p.1 <= bytes@.len(),
        forall|v: JVal, end: int|
            #[trigger] canonical_at(bytes@, vpos as int, end, v) ==> (r matches Some(p)
                && p.0.jval() == v && p.1 == end),
    decreases bytes@.len() - vpos, 0int,
{
    let mut fields: Vec<(String, JsonValue)> = Vec::new();
    proof {
        assert forall|v: JVal, end: int|
            #[trigger] canonical_at(bytes@, vpos as int, end, v) implies exists|kk: int|
            #[trigger] obj_scan(v->Obj_0, jval_fields(fields@), start - (vpos + 1) as int, kk) by {
            assert(jval_fields(fields@) =~= v->Obj_0.take(0));
            assert(obj_pre(v->Obj_0, 0) =~= Seq::<u8>::empty());
            assert(obj_scan(v->Obj_0, jval_fields(fields@), start - (vpos + 1) as int, 0));
        }
    }
    let mut j = start;
    loop
        invariant
            vpos < j <= bytes@.len(),
            forall|v: JVal, end: int|
                #[trigger] canonical_at(bytes@, vpos as int, end, v) ==> (v is Obj && exists|
                    kk: int,
                | #[trigger] obj_scan(v->Obj_0, jval_fields(fields@), j - (vpos + 1) as int, kk)),
        decreases bytes@.len() - j,
    {
        let ghost j0 = j as int;
        let ghost fields0 = fields@;
        proof {
            lemma_obj_step(bytes@, vpos as int, j0, jval_fields(fields0));
        }
        let field = parse_obj_field(
            bytes,
            Ghost(vpos as int),
            Ghost(jval_fields(fields0)),
            j,
        );
        match field {
            Some((ks, pv, j4)) => {
                fields.push((ks, pv));
                let j5 = skip_ws(bytes, j4);
                if j5 < bytes.len() && bytes[j5] == 44 {
                    j = j5 + 1;
                    proof {
                        assert forall|v: JVal, end: int|
                            #[trigger] canonical_at(bytes@, vpos as int, end, v) implies (v is Obj
                            && exists|kk: int|
                            #[trigger] obj_scan(
                            v->Obj_0,
                            jval_fields(fields@),
                            j - (vpos + 1) as int,
                            kk,
                        )) by {
                            let fs = v->Obj_0;
                            let kk = choose|kk: int|
                                {
                                    &&& #[trigger] obj_step_at(bytes@, vpos as int, j0, jval_fields(
                                        fields0,
                                    ), end, fs, kk)
                                    &&& ks@ == fs[kk].0
                                    &&& pv.jval() == fs[kk].1
                                    &&& j4 == j0 + str_bytes(fs[kk].0).len() + 1 + jbytes(
                                        fs[kk].1,
                                    ).len()
                                    &&& (kk < fs.len() - 1 ==> bytes@[j4 as int] == 44 && j4 < end
                                        - 1)
                                    &&& (kk == fs.len() - 1 ==> j4 == end - 1 && bytes@[j4 as int]
                                        == 125)
                                    &&& !is_ws(bytes@[j4 as int])
                                };
                            assert(j4 < bytes@.len());
                            assert(j5 == j4);
                            if kk == fs.len() - 1 {
                                assert(bytes@[j4 as int] == 125);
                            }
                            assert(kk < fs.len() - 1);
                            lemma_obj_decomp(fs, kk);
                            assert(fields@.drop_last() =~= fields0);
                            assert(jval_fields(fields@) =~= jval_fields(fields0).push(
                                (ks@, pv.jval()),
                            ));
                            assert(fs.take(kk + 1) =~= fs.take(kk).push(fs[kk]));
                            assert(obj_scan(fs, jval_fields(fields@), j - (vpos + 1) as int, kk
                                + 1));
                        }
                    }
                } else if j5 < bytes.len() && bytes[j5] == 125 {
                    proof {
                        assert forall|v: JVal, end: int|
                            #[trigger] canonical_at(bytes@, vpos as int, end, v) implies (
                        JsonValue::Obj(fields).jval() == v && j5 + 1 == end) by {
                            let fs = v->Obj_0;
                            let kk = choose|kk: int|
                                {
                                    &&& #[trigger] obj_step_at(bytes@, vpos as int, j0, jval_fields(
                                        fields0,
                                    ), end, fs, kk)
                                    &&& ks@ == fs[kk].0
                                    &&& pv.jval() == fs[kk].1
                                    &&& j4 == j0 + str_bytes(fs[kk].0).len() + 1 + jbytes(
                                        fs[kk].1,
                                    ).len()
                                    &&& (kk < fs.len() - 1 ==> bytes@[j4 as int] == 44 && j4 < end
                                        - 1)
                                    &&& (kk == fs.len() - 1 ==> j4 == end - 1 && bytes@[j4 as int]
                                        == 125)
                                    &&& !is_ws(bytes@[j4 as int])
                                };
                            assert(j4 <= end - 1);
                            assert(j4 < bytes@.len());
                            assert(j5 == j4);
                            if kk < fs.len() - 1 {
                                assert(bytes@[j4 as int] == 44);
                            }
                            assert(kk == fs.len() - 1);
                            assert(fields@.drop_last() =~= fields0);
                            assert(jval_fields(fields@) =~= jval_fields(fields0).push(
                                (ks@, pv.jval()),
                            ));
                            assert(fs.take(kk + 1) =~= fs.take(kk).push(fs[kk]));
                            assert(fs.take(fs.len() as int) =~= fs);
                            assert(jval_fields(fields@) == fs);
                        }
                    }
                    return Some((JsonValue::Obj(fields), j5 + 1));
                } else {
                    proof {
                        assert forall|v: JVal, end: int|
                            #[trigger] canonical_at(bytes@, vpos as int, end, v) implies false by {
                            let fs = v->Obj_0;
                            let kk = choose|kk: int|
                                {
                                    &&& #[trigger] obj_step_at(bytes@, vpos as int, j0, jval_fields(
                                        fields0,
                                    ), end, fs, kk)
                                    &&& ks@ == fs[kk].0
                                    &&& pv.jval() == fs[kk].1
                                    &&& j4 == j0 + str_bytes(fs[kk].0).len() + 1 + jbytes(
                                        fs[kk].1,
                                    ).len()
                                    &&& (kk < fs.len() - 1 ==> bytes@[j4 as int] == 44 && j4 < end
                                        - 1)
                                    &&& (kk == fs.len() - 1 ==> j4 == end - 1 && bytes@[j4 as int]
                                        == 125)
                                    &&& !is_ws(bytes@[j4 as int])
                                };
                            assert(j4 <= end - 1);
                            assert(j4 < bytes@.len());
                            assert(j5 == j4);
                        }
                    }
                    return None;
                }
            },
            None => {
                proof {
                    assert forall|v: JVal, end: int|
                        #[trigger] canonical_at(bytes@, vpos as int, end, v) implies false by {}
                }
                return None;
            },
        }
    }
}

#[verifier::loop_isolation(false)]
#[verifier::rlimit(100)]
#[verifier::spinoff_prover]
fn parse_value(bytes: &[u8], pos: usize) -> (r: Option<(JsonValue, usize)>)
    requires
        pos <= bytes@.len(),
    ensures
        r matches Some(p) ==> pos < p.1 <= bytes@.len(),
        forall|v: JVal, end: int|
            #[trigger] canonical_at(bytes@, pos as int, end, v) ==> (r matches Some(p)
                && p.0.jval() == v && p.1 == end),
    decreases bytes@.len() - pos, 1int,
{
    proof {
        assert forall|v: JVal, end: int|
            #[trigger] canonical_at(bytes@, pos as int, end, v) implies (pos < bytes@.len()
            && bytes@[pos as int] == jbytes(v)[0] && !is_ws(jbytes(v)[0])) by {
            lemma_jbytes_first(v);
            assert(bytes@[pos as int] == bytes@.subrange(pos as int, end)[0]);
        }
    }
    let i = skip_ws(bytes, pos);
    if i >= bytes.len() {
        proof {
            assert forall|v: JVal, end: int|
                #[trigger] canonical_at(bytes@, pos as int, end, v) implies false by {
                lemma_jbytes_first(v);
            }
        }
        return None;
    }
    let b = bytes[i];
    if b == 110 {
        proof {
            assert forall|v: JVal, end: int|
                #[trigger] canonical_at(bytes@, pos as int, end, v) implies (v is Null && end
                == pos + 4 && bytes@.len() - pos >= 4 && bytes@[pos + 1] == 117 && bytes@[pos + 2]
                == 108 && bytes@[pos + 3] == 108) by {
                lemma_jbytes_first(v);
                assert(v is Null);
                assert(forall|t: int|
                    pos <= t < end ==> bytes@[t] == #[trigger] bytes@.subrange(
                        pos as int,
                        end,
                    )[t - pos]);
            }
        }
        if bytes.len() - i >= 4 && bytes[i + 1] == 117 && bytes[i + 2] == 108 && bytes[i + 3]
            == 108 {
            return Some((JsonValue::Null, i + 4));
        }
        proof {
            assert forall|v: JVal, end: int|
                #[trigger] canonical_at(bytes@, pos as int, end, v) implies false by {}
        }
        return None;
    }
    if b == 116 {
        proof {
            assert forall|v: JVal, end: int|
                #[trigger] canonical_at(bytes@, pos as int, end, v) implies (v == JVal::Bool(true)
                && end == pos + 4 && bytes@.len() - pos >= 4 && bytes@[pos + 1] == 114 && bytes@[
                pos + 2] == 117 && bytes@[pos + 3] == 101) by {
                lemma_jbytes_first(v);
                assert(v == JVal::Bool(true));
                assert(forall|t: int|
                    pos <= t < end ==> bytes@[t] == #[trigger] bytes@.subrange(
                        pos as int,
                        end,
                    )[t - pos]);
            }
        }
        if bytes.len() - i >= 4 && bytes[i + 1] == 114 && bytes[i + 2] == 117 && bytes[i + 3]
            == 101 {
            return Some((JsonValue::Bool(true), i + 4));
        }
        proof {
            assert forall|v: JVal, end: int|
                #[trigger] canonical_at(bytes@, pos as int, end, v) implies false by {}
        }
        return None;
    }
    if b == 102 {
        proof {
            assert forall|v: JVal, end: int|
                #[trigger] canonical_at(bytes@, pos as int, end, v) implies (v == JVal::Bool(false)
                && end == pos + 5 && bytes@.len() - pos >= 5 && bytes@[pos + 1] == 97 && bytes@[pos
                + 2] == 108 && bytes@[pos + 3] == 115 && bytes@[pos + 4] == 101) by {
                lemma_jbytes_first(v);
                assert(v == JVal::Bool(false));
                assert(forall|t: int|
                    pos <= t < end ==> bytes@[t] == #[trigger] bytes@.subrange(
                        pos as int,
                        end,
                    )[t - pos]);
            }
        }
        if bytes.len() - i >= 5 && bytes[i + 1] == 97 && bytes[i + 2] == 108 && bytes[i + 3] == 115
            && bytes[i + 4] == 101 {
            return Some((JsonValue::Bool(false), i + 5));
        }
        proof {
            assert forall|v: JVal, end: int|
                #[trigger] canonical_at(bytes@, pos as int, end, v) implies false by {}
        }
        return None;
    }
    if b == 34 {
        proof {
            assert forall|v: JVal, end: int|
                #[trigger] canonical_at(bytes@, pos as int, end, v) implies (v is Str
                && #[trigger] canonical_at(bytes@, i as int, end, JVal::Str(v->Str_0))) by {
                lemma_jbytes_first(v);
                assert(v is Str);
            }
        }
        let parsed = parse_string(bytes, i);
        return match parsed {
            Some((sv, jj)) => {
                proof {
                    assert forall|v: JVal, end: int|
                        #[trigger] canonical_at(bytes@, pos as int, end, v) implies (JsonValue::Str(
                        sv,
                    ).jval() == v && jj == end) by {
                        assert(canonical_at(bytes@, i as int, end, JVal::Str(v->Str_0)));
                    }
                }
                Some((JsonValue::Str(sv), jj))
            },
            None => {
                proof {
                    assert forall|v: JVal, end: int|
                        #[trigger] canonical_at(bytes@, pos as int, end, v) implies false by {
                        assert(canonical_at(bytes@, i as int, end, JVal::Str(v->Str_0)));
                    }
                }
                None
            },
        };
    }
    if b == 45 || (48 <= b && b <= 57) {
        proof {
            assert forall|v: JVal, end: int|
                #[trigger] canonical_at(bytes@, pos as int, end, v) implies (v is Int
                && #[trigger] canonical_at(bytes@, i as int, end, JVal::Int(v->Int_0))) by {
                lemma_jbytes_first(v);
                assert(v is Int);
            }
        }
        let parsed = parse_number(bytes, i);
        return match parsed {
            Some((nv, jj)) => {
                proof {
                    assert forall|v: JVal, end: int|
                        #[trigger] canonical_at(bytes@, pos as int, end, v) implies (JsonValue::Int(
                        nv,
                    ).jval() == v && jj == end) by {
                        assert(canonical_at(bytes@, i as int, end, JVal::Int(v->Int_0)));
                    }
                }
                Some((JsonValue::Int(nv), jj))
            },
            None => {
                proof {
                    assert forall|v: JVal, end: int|
                        #[trigger] canonical_at(bytes@, pos as int, end, v) implies false by {
                        assert(canonical_at(bytes@, i as int, end, JVal::Int(v->Int_0)));
                    }
                }
                None
            },
        };
    }
    if b == 91 {
        proof {
            assert forall|v: JVal, end: int|
                #[trigger] canonical_at(bytes@, pos as int, end, v) implies (v is Arr && pos + 1
                < bytes@.len() && !is_ws(bytes@[pos + 1]) && (v->Arr_0.len() == 0 <==> bytes@[pos
                + 1] == 93) && (v->Arr_0.len() == 0 ==> end == pos + 2)) by {
                lemma_jbytes_first(v);
                assert(v is Arr);
                lemma_arr_candidate(bytes@, pos as int, end, v->Arr_0);
                let xs = v->Arr_0;
                if xs.len() == 0 {
                    assert(jarr_bytes(xs).len() == 0);
                } else {
                    lemma_jarr_front(xs);
                    lemma_jbytes_first(xs[0]);
                    assert(bytes@[pos + 1] == jarr_bytes(xs)[0]);
                    assert(jarr_bytes(xs)[0] == jbytes(xs[0])[0]);
                }
            }
        }
        let mut items: Vec<JsonValue> = Vec::new();
        let first = skip_ws(bytes, i + 1);
        if first < bytes.len() && bytes[first] == 93 {
            proof {
                assert forall|v: JVal, end: int|
                    #[trigger] canonical_at(bytes@, pos as int, end, v) implies (JsonValue::Arr(
                    items,
                ).jval() == v && first + 1 == end) by {
                    assert(v->Arr_0.len() == 0);
                    assert(jval_seq(items@) =~= v->Arr_0);
                }
            }
            return Some((JsonValue::Arr(items), first + 1));
        }
        proof {
            assert forall|v: JVal, end: int|
                #[trigger] canonical_at(bytes@, i as int, end, v) implies (v is Arr
                && v->Arr_0.len() > 0) by {
                lemma_jbytes_first(v);
                assert(bytes@[i as int] == bytes@.subrange(i as int, end)[0]);
                assert(v is Arr);
                lemma_arr_candidate(bytes@, i as int, end, v->Arr_0);
                if v->Arr_0.len() == 0 {
                    assert(jarr_bytes(v->Arr_0).len() == 0);
                    assert(end == i + 2);
                    assert(bytes@[i + 1] == 93);
                    assert(!is_ws(bytes@[i + 1]));
                    assert(i + 1 < bytes@.len());
                    assert(first == i + 1);
                }
            }
        }
        let r2 = parse_arr_tail(bytes, i, i + 1);
        proof {
            assert forall|v: JVal, end: int|
                #[trigger] canonical_at(bytes@, pos as int, end, v) implies (r2 matches Some(p)
                && p.0.jval() == v && p.1 == end) by {
                assert(canonical_at(bytes@, i as int, end, v));
            }
        }
        return r2;
    }
    if b == 123 {
        proof {
            assert forall|v: JVal, end: int|
                #[trigger] canonical_at(bytes@, pos as int, end, v) implies (v is Obj && pos + 1
                < bytes@.len() && !is_ws(bytes@[pos + 1]) && (v->Obj_0.len() == 0 <==> bytes@[pos
                + 1] == 125) && (v->Obj_0.len() == 0 ==> end == pos + 2)) by {
                lemma_jbytes_first(v);
                assert(v is Obj);
                lemma_obj_candidate(bytes@, pos as int, end, v->Obj_0);
                let fs = v->Obj_0;
                if fs.len() == 0 {
                    assert(jobj_bytes(fs).len() == 0);
                } else {
                    lemma_jobj_front(fs);
                    assert(bytes@[pos + 1] == jobj_bytes(fs)[0]);
                    assert(jobj_bytes(fs)[0] == str_bytes(fs[0].0)[0]);
                    assert(str_bytes(fs[0].0)[0] == 34);
                }
            }
        }
        let mut fields: Vec<(String, JsonValue)> = Vec::new();
        let first = skip_ws(bytes, i + 1);
        if first < bytes.len() && bytes[first] == 125 {
            proof {
                assert forall|v: JVal, end: int|
                    #[trigger] canonical_at(bytes@, pos as int, end, v) implies (JsonValue::Obj(
                    fields,
                ).jval() == v && first + 1 == end) by {
                    assert(v->Obj_0.len() == 0);
                    assert(jval_fields(fields@) =~= v->Obj_0);
                }
            }
            return Some((JsonValue::Obj(fields), first + 1));
        }
        proof {
            assert forall|v: JVal, end: int|
                #[trigger] canonical_at(bytes@, i as int, end, v) implies (v is Obj
                && v->Obj_0.len() > 0) by {
                lemma_jbytes_first(v);
                assert(bytes@[i as int] == bytes@.subrange(i as int, end)[0]);
                assert(v is Obj);
                lemma_obj_candidate(bytes@, i as int, end, v->Obj_0);
                if v->Obj_0.len() == 0 {
                    assert(jobj_bytes(v->Obj_0).len() == 0);
                    assert(end == i + 2);
                    assert(bytes@[i + 1] == 125);
                    assert(!is_ws(bytes@[i + 1]));
                    assert(i + 1 < bytes@.len());
                    assert(first == i + 1);
                }
            }
        }
        let r2 = parse_obj_tail(bytes, i, i + 1);
        proof {
            assert forall|v: JVal, end: int|
                #[trigger] canonical_at(bytes@, pos as int, end, v) implies (r2 matches Some(p)
                && p.0.jval() == v && p.1 == end) by {
                assert(canonical_at(bytes@, i as int, end, v));
            }
        }
        return r2;
    }
    proof {
        assert forall|v: JVal, end: int|
            #[trigger] canonical_at(bytes@, pos as int, end, v) implies false by {
            lemma_jbytes_first(v);
        }
    }
    None
}

impl JsonValue {
    /// Parses a whole JSON text (in the subset this codec reads: null,
    /// booleans, 64-bit integers, strings, arrays and objects) with
    /// nothing but whitespace around the one value.  The canonical text
    /// of any value with integers in range parses back to that value.
    pub fn parse_json(bytes: &[u8]) -> (r: Option<JsonValue>)
        ensures
            forall|v: JVal|
                bytes@ == jbytes(v) && #[trigger] ints_in_range(v) ==> (r matches Some(w)
                    && w.jval() == v),
    {
        proof {
            assert forall|v: JVal|
                bytes@ == jbytes(v) && #[trigger] ints_in_range(v) implies canonical_at(
                bytes@,
                0,
                bytes@.len() as int,
                v,
            ) by {
                assert(bytes@.subrange(0, bytes@.len() as int) =~= bytes@);
            }
        }
        match parse_value(bytes, 0) {
            Some((v, p)) => {
                let p2 = skip_ws(bytes, p);
                if p2 == bytes.len() {
                    Some(v)
                } else {
                    proof {
                        assert forall|w: JVal|
                            bytes@ == jbytes(w) && #[trigger] ints_in_range(w) implies false by {
                            assert(canonical_at(bytes@, 0, bytes@.len() as int, w));
                        }
                    }
                    None
                }
            },
            None => {
                proof {
                    assert forall|w: JVal|
                        bytes@ == jbytes(w) && #[trigger] ints_in_range(w) implies false by {
                        assert(canonical_at(bytes@, 0, bytes@.len() as int, w));
                    }
                }
                None
            },
        }
    }
}


/// An all-ASCII byte sequence is valid UTF-8.
proof fn lemma_ascii_valid(s: Seq<u8>)
    requires
        forall|i: int| 0 <= i < s.len() ==> (#[trigger] s[i]) < 0x80,
    ensures
        vstd::utf8::valid_utf8(s),
    decreases s.len(),
{
    if s.len() > 0 {
        let b0 = s[0];
        assert(vstd::utf8::is_leading_byte_width_1(b0));
        assert(forall|x: u8| x < 0x80 ==> #[trigger] vstd::utf8::leading_bits_width_1(x)
            < 0x80) by (bit_vector);
        assert(vstd::utf8::valid_first_scalar(s));
        let rest = vstd::utf8::pop_first_scalar(s);
        assert(rest =~= s.subrange(1, s.len() as int));
        assert(forall|i: int| 0 <= i < rest.len() ==> (#[trigger] rest[i]) < 0x80);
        lemma_ascii_valid(rest);
    }
}

/// Escaping distributes over concatenation.
proof fn lemma_esc_concat(a: Seq<u8>, b: Seq<u8>)
    ensures
        esc_bytes(a + b) == esc_bytes(a) + esc_bytes(b),
    decreases b.len(),
{
    if b.len() == 0 {
        assert(a + b =~= a);
        assert(esc_bytes(a) + esc_bytes(b) =~= esc_bytes(a));
    } else {
        lemma_esc_concat(a, b.drop_last());
        assert((a + b).drop_last() =~= a + b.drop_last());
        assert((a + b).last() == b.last());
        assert((esc_bytes(a) + esc_bytes(b.drop_last())) + esc_byte(b.last()) =~= esc_bytes(a) + (
        esc_bytes(b.drop_last()) + esc_byte(b.last())));
    }
}

/// Bytes that need no escaping pass through unchanged.
proof fn lemma_esc_passthrough(s: Seq<u8>)
    requires
        forall|i: int| 0 <= i < s.len() ==> (#[trigger] s[i]) >= 0x80,
    ensures
        esc_bytes(s) == s,
    decreases s.len(),
{
    if s.len() > 0 {
        lemma_esc_passthrough(s.drop_last());
        assert(esc_byte(s.last()) =~= seq![s.last()]);
        assert(s.drop_last() + seq![s.last()] =~= s);
    }
}

/// The escaped form of one byte is all ASCII when the byte is.
proof fn lemma_esc_byte_ascii(b: u8)
    requires
        b < 0x80,
    ensures
        forall|i: int| 0 <= i < esc_byte(b).len() ==> (#[trigger] esc_byte(b)[i]) < 0x80,
{
}

/// The escaped UTF-8 encoding of any character sequence is valid UTF-8.
proof fn lemma_esc_encode_valid(s: Seq<char>)
    ensures
        vstd::utf8::valid_utf8(esc_bytes(vstd::utf8::encode_utf8(s))),
    decreases s.len(),
{
    broadcast use vstd::utf8::valid_utf8_concat;
    broadcast use vstd::utf8::char_is_scalar;

    if s.len() == 0 {
        assert(esc_bytes(vstd::utf8::encode_utf8(s)) =~= Seq::<u8>::empty());
        assert(vstd::utf8::valid_utf8(Seq::<u8>::empty()));
    } else {
        let c = s[0] as u32;
        let enc = vstd::utf8::encode_scalar(c);
        let rest = vstd::utf8::encode_utf8(s.drop_first());
        assert(vstd::utf8::encode_utf8(s) == enc + rest);
        lemma_esc_concat(enc, rest);
        lemma_esc_valid_scalar(s[0]);
        lemma_esc_encode_valid(s.drop_first());
        vstd::utf8::valid_utf8_concat(esc_bytes(enc), esc_bytes(rest));
    }
}

/// The escaped encoding of one character is valid UTF-8: an ASCII
/// character escapes to ASCII text, and a multi-byte encoding passes
/// through untouched.
proof fn lemma_esc_valid_scalar(ch: char)
    ensures
        vstd::utf8::valid_utf8(esc_bytes(vstd::utf8::encode_scalar(ch as u32))),
{
    broadcast use vstd::utf8::char_is_scalar;

    let c = ch as u32;
    let enc = vstd::utf8::encode_scalar(c);
    if c <= 0x7F {
        let b = vstd::utf8::leading_byte_width_1(c);
        assert(forall|x: u32| #[trigger] vstd::utf8::leading_byte_width_1(x)
            < 0x80) by (bit_vector);
        assert(enc =~= seq![b]);
        assert(enc.drop_last() =~= Seq::<u8>::empty());
        assert(esc_bytes(Seq::<u8>::empty()) =~= Seq::<u8>::empty());
        assert(esc_bytes(enc) =~= esc_byte(b));
        lemma_esc_byte_ascii(b);
        lemma_ascii_valid(esc_byte(b));
    } else {
        assert(forall|y: u32| #[trigger] vstd::utf8::leading_byte_width_2(y)
            >= 0x80) by (bit_vector);
        assert(forall|y: u32| #[trigger] vstd::utf8::leading_byte_width_3(y)
            >= 0x80) by (bit_vector);
        assert(forall|y: u32| #[trigger] vstd::utf8::leading_byte_width_4(y)
            >= 0x80) by (bit_vector);
        assert(forall|y: u32| #[trigger] vstd::utf8::last_continuation_byte(y)
            >= 0x80) by (bit_vector);
        assert(forall|y: u32| #[trigger] vstd::utf8::second_last_continuation_byte(y)
            >= 0x80) by (bit_vector);
        assert(forall|y: u32| #[trigger] vstd::utf8::third_last_continuation_byte(y)
            >= 0x80) by (bit_vector);
        assert(vstd::utf8::is_scalar(c));
        if vstd::utf8::has_width_2_encoding(c) {
            assert(enc =~= seq![
                vstd::utf8::leading_byte_width_2(c),
                vstd::utf8::last_continuation_byte(c),
            ]);
        } else if vstd::utf8::has_width_3_encoding(c) {
            assert(enc =~= seq![
                vstd::utf8::leading_byte_width_3(c),
                vstd::utf8::second_last_continuation_byte(c),
                vstd::utf8::last_continuation_byte(c),
            ]);
        } else {
            assert(vstd::utf8::has_width_4_encoding(c));
            assert(enc =~= seq![
                vstd::utf8::leading_byte_width_4(c),
                vstd::utf8::third_last_continuation_byte(c),
                vstd::utf8::second_last_continuation_byte(c),
                vstd::utf8::last_continuation_byte(c),
            ]);
        }
        assert(forall|i: int| 0 <= i < enc.len() ==> (#[trigger] enc[i]) >= 0x80);
        lemma_esc_passthrough(enc);
        vstd::utf8::encode_utf8_valid_utf8(seq![ch]);
        assert(seq![ch].drop_first() =~= Seq::<char>::empty());
        assert(vstd::utf8::encode_utf8(Seq::<char>::empty()) =~= Seq::<u8>::empty());
        assert(vstd::utf8::encode_utf8(seq![ch]) =~= enc);
    }
}

/// Decimal digit bytes are ASCII.
proof fn lemma_nat_bytes_ascii(n: nat)
    ensures
        forall|i: int| 0 <= i < nat_bytes(n).len() ==> 48 <= (#[trigger] nat_bytes(n)[i]) <= 57,
    decreases n,
{
    if n < 10 {
        assert(nat_bytes(n) =~= seq![(48 + n) as u8]);
    } else {
        lemma_nat_bytes_ascii(n / 10);
        assert(nat_bytes(n) =~= nat_bytes(n / 10) + seq![(48 + n % 10) as u8]);
        assert(forall|i: int|
            0 <= i < nat_bytes(n / 10).len() ==> (#[trigger] nat_bytes(n)[i]) == nat_bytes(
                n / 10,
            )[i]);
        assert(nat_bytes(n).last() == (48 + n % 10) as u8);
    }
}

/// An integer's canonical text is valid UTF-8.
proof fn lemma_int_bytes_valid(i: int)
    ensures
        vstd::utf8::valid_utf8(int_bytes(i)),
{
    if i < 0 {
        lemma_nat_bytes_ascii((-i) as nat);
        lemma_ascii_valid(int_bytes(i));
    } else {
        lemma_nat_bytes_ascii(i as nat);
        lemma_ascii_valid(int_bytes(i));
    }
}

/// A quoted, escaped string value is valid UTF-8.
proof fn lemma_str_bytes_valid(s: Seq<char>)
    ensures
        vstd::utf8::valid_utf8(str_bytes(s)),
{
    broadcast use vstd::utf8::valid_utf8_concat;

    lemma_esc_encode_valid(s);
    lemma_ascii_valid(seq![34u8]);
    vstd::utf8::valid_utf8_concat(seq![34u8], esc_bytes(vstd::utf8::encode_utf8(s)));
    vstd::utf8::valid_utf8_concat(
        seq![34u8] + esc_bytes(vstd::utf8::encode_utf8(s)),
        seq![34u8],
    );
}

/// The canonical JSON text of any value is valid UTF-8.
pub proof fn lemma_jbytes_valid(v: JVal)
    ensures
        vstd::utf8::valid_utf8(jbytes(v)),
    decreases v,
{
    broadcast use vstd::utf8::valid_utf8_concat;

    match v {
        JVal::Null => {
            lemma_ascii_valid(jbytes(v));
        },
        JVal::Bool(b) => {
            lemma_ascii_valid(jbytes(v));
        },
        JVal::Int(i) => {
            lemma_int_bytes_valid(i);
        },
        JVal::Str(s) => {
            lemma_str_bytes_valid(s);
        },
        JVal::Arr(xs) => {
            lemma_jarr_bytes_valid(xs);
            lemma_ascii_valid(seq![91u8]);
            lemma_ascii_valid(seq![93u8]);
            vstd::utf8::valid_utf8_concat(seq![91u8], jarr_bytes(xs));
            vstd::utf8::valid_utf8_concat(seq![91u8] + jarr_bytes(xs), seq![93u8]);
        },
        JVal::Obj(fs) => {
            lemma_jobj_bytes_valid(fs);
            lemma_ascii_valid(seq![123u8]);
            lemma_ascii_valid(seq![125u8]);
            vstd::utf8::valid_utf8_concat(seq![123u8], jobj_bytes(fs));
            vstd::utf8::valid_utf8_concat(seq![123u8] + jobj_bytes(fs), seq![125u8]);
        },
    }
}

proof fn lemma_jarr_bytes_valid(xs: Seq<JVal>)
    ensures
        vstd::utf8::valid_utf8(jarr_bytes(xs)),
    decreases xs,
{
    broadcast use vstd::utf8::valid_utf8_concat;

    if xs.len() == 0 {
        assert(vstd::utf8::valid_utf8(Seq::<u8>::empty()));
    } else if xs.len() == 1 {
        lemma_jbytes_valid(xs.last());
    } else {
        lemma_jarr_bytes_valid(xs.drop_last());
        lemma_ascii_valid(seq![44u8]);
        lemma_jbytes_valid(xs.last());
        vstd::utf8::valid_utf8_concat(jarr_bytes(xs.drop_last()), seq![44u8]);
        vstd::utf8::valid_utf8_concat(
            jarr_bytes(xs.drop_last()) + seq![44u8],
            jbytes(xs.last()),
        );
    }
}

proof fn lemma_jobj_bytes_valid(fs: Seq<(Seq<char>, JVal)>)
    ensures
        vstd::utf8::valid_utf8(jobj_bytes(fs)),
    decreases fs,
{
    broadcast use vstd::utf8::valid_utf8_concat;

    if fs.len() == 0 {
        assert(vstd::utf8::valid_utf8(Seq::<u8>::empty()));
    } else if fs.len() == 1 {
        lemma_str_bytes_valid(fs.last().0);
        lemma_ascii_valid(seq![58u8]);
        lemma_jbytes_valid(fs.last().1);
        vstd::utf8::valid_utf8_concat(str_bytes(fs.last().0), seq![58u8]);
        vstd::utf8::valid_utf8_concat(
            str_bytes(fs.last().0) + seq![58u8],
            jbytes(fs.last().1),
        );
    } else {
        lemma_jobj_bytes_valid(fs.drop_last());
        lemma_ascii_valid(seq![44u8]);
        lemma_str_bytes_valid(fs.last().0);
        lemma_ascii_valid(seq![58u8]);
        lemma_jbytes_valid(fs.last().1);
        vstd::utf8::valid_utf8_concat(jobj_bytes(fs.drop_last()), seq![44u8]);
        vstd::utf8::valid_utf8_concat(
            jobj_bytes(fs.drop_last()) + seq![44u8],
            str_bytes(fs.last().0),
        );
        vstd::utf8::valid_utf8_concat(
            jobj_bytes(fs.drop_last()) + seq![44u8] + str_bytes(fs.last().0),
            seq![58u8],
        );
        vstd::utf8::valid_utf8_concat(
            jobj_bytes(fs.drop_last()) + seq![44u8] + str_bytes(fs.last().0) + seq![58u8],
            jbytes(fs.last().1),
        );
    }
}


/// A decimal digit byte.
pub open spec fn is_digit(b: u8) -> bool {
    48 <= b <= 57
}

/// A JSON whitespace byte.
pub open spec fn is_ws(b: u8) -> bool {
    b == 32 || b == 9 || b == 10 || b == 13
}

/// Whether every integer in the value fits the codec's signed 64-bit
/// range; text holding a wider number cannot be read back into an
/// `i64`-valued tree.
pub open spec fn ints_in_range(v: JVal) -> bool
    decreases v,
{
    match v {
        JVal::Null => true,
        JVal::Bool(_) => true,
        JVal::Int(i) => i64::MIN <= i <= i64::MAX,
        JVal::Str(_) => true,
        JVal::Arr(xs) => ints_ok_seq(xs),
        JVal::Obj(fs) => ints_ok_fields(fs),
    }
}

pub open spec fn ints_ok_seq(s: Seq<JVal>) -> bool
    decreases s,
{
    if s.len() == 0 {
        true
    } else {
        ints_ok_seq(s.drop_last()) && ints_in_range(s.last())
    }
}

pub open spec fn ints_ok_fields(s: Seq<(Seq<char>, JVal)>) -> bool
    decreases s,
{
    if s.len() == 0 {
        true
    } else {
        ints_ok_fields(s.drop_last()) && ints_in_range(s.last().1)
    }
}

/// Whether the bytes from `pos` to `end` spell exactly the canonical
/// text of `v` (integers in range), with nothing at `end` that could
/// extend a number token.
pub open spec fn canonical_at(bytes: Seq<u8>, pos: int, end: int, v: JVal) -> bool {
    &&& 0 <= pos <= end <= bytes.len()
    &&& bytes.subrange(pos, end) == jbytes(v)
    &&& ints_in_range(v)
    &&& (end == bytes.len() || !is_digit(bytes[end]))
}

/// The number a digit string denotes, most significant digit first.
pub open spec fn digits_val(s: Seq<u8>) -> int
    decreases s.len(),
{
    if s.len() == 0 {
        0int
    } else {
        digits_val(s.drop_last()) * 10 + (s.last() - 48)
    }
}

proof fn lemma_digits_val_nat_bytes(n: nat)
    ensures
        digits_val(nat_bytes(n)) == n,
    decreases n,
{
    if n < 10 {
        assert(nat_bytes(n) =~= seq![(48 + n) as u8]);
        assert(nat_bytes(n).drop_last() =~= Seq::<u8>::empty());
        assert(nat_bytes(n).last() == (48 + n) as u8);
        assert((48 + n) as u8 == 48 + n);
        assert(digits_val(nat_bytes(n)) == digits_val(Seq::<u8>::empty()) * 10 + ((48 + n) as u8
            - 48));
    } else {
        lemma_digits_val_nat_bytes(n / 10);
        assert(nat_bytes(n).drop_last() =~= nat_bytes(n / 10));
        assert(nat_bytes(n).last() == (48 + n % 10) as u8);
        assert(n % 10 < 10);
        assert((48 + n % 10) as u8 == 48 + n % 10);
        assert(digits_val(nat_bytes(n)) == digits_val(nat_bytes(n / 10)) * 10 + ((48 + n % 10)
            as u8 - 48));
        vstd::arithmetic::div_mod::lemma_fundamental_div_mod(n as int, 10);
    }
}

proof fn lemma_digits_val_nonneg(s: Seq<u8>)
    requires
        forall|i: int| 0 <= i < s.len() ==> is_digit(#[trigger] s[i]),
    ensures
        digits_val(s) >= 0,
    decreases s.len(),
{
    if s.len() > 0 {
        lemma_digits_val_nonneg(s.drop_last());
    }
}

proof fn lemma_digits_val_take_le(s: Seq<u8>, k: int)
    requires
        forall|i: int| 0 <= i < s.len() ==> is_digit(#[trigger] s[i]),
        0 <= k <= s.len(),
    ensures
        digits_val(s.take(k)) <= digits_val(s),
    decreases s.len() - k,
{
    if k < s.len() {
        lemma_digits_val_take_le(s, k + 1);
        assert(s.take(k + 1).drop_last() =~= s.take(k));
        lemma_digits_val_nonneg(s.take(k));
    } else {
        assert(s.take(k) =~= s);
    }
}

proof fn lemma_nat_bytes_len_pos(n: nat)
    ensures
        nat_bytes(n).len() >= 1,
    decreases n,
{
    if n >= 10 {
        lemma_nat_bytes_len_pos(n / 10);
    }
}

/// The first byte of a value's canonical text classifies its shape.
proof fn lemma_jbytes_first(v: JVal)
    ensures
        jbytes(v).len() >= 1,
        match v {
            JVal::Null => jbytes(v)[0] == 110,
            JVal::Bool(b) => jbytes(v)[0] == if b {
                116u8
            } else {
                102u8
            },
            JVal::Int(i) => jbytes(v)[0] == 45 || is_digit(jbytes(v)[0]),
            JVal::Str(_) => jbytes(v)[0] == 34,
            JVal::Arr(_) => jbytes(v)[0] == 91,
            JVal::Obj(_) => jbytes(v)[0] == 123,
        },
{
    match v {
        JVal::Int(i) => {
            if i < 0 {
                lemma_nat_bytes_len_pos((-i) as nat);
            } else {
                lemma_nat_bytes_len_pos(i as nat);
                lemma_nat_bytes_ascii(i as nat);
            }
        },
        _ => {},
    }
}

/// Escaping a single byte.
proof fn lemma_esc_single(b: u8)
    ensures
        esc_bytes(seq![b]) == esc_byte(b),
{
    assert(seq![b].drop_last() =~= Seq::<u8>::empty());
    assert(esc_bytes(Seq::<u8>::empty()) + esc_byte(b) =~= esc_byte(b));
}

/// Front decomposition of an escaped string at source position `k`.
proof fn lemma_esc_front(bs: Seq<u8>, k: int)
    requires
        0 <= k < bs.len(),
    ensures
        esc_bytes(bs) == esc_bytes(bs.take(k)) + esc_byte(bs[k]) + esc_bytes(
            bs.skip(k + 1),
        ),
{
    assert(bs =~= bs.take(k) + seq![bs[k]] + bs.skip(k + 1));
    lemma_esc_concat(bs.take(k) + seq![bs[k]], bs.skip(k + 1));
    lemma_esc_concat(bs.take(k), seq![bs[k]]);
    lemma_esc_single(bs[k]);
}

/// Front decomposition of an array body: the first element, then a comma
/// and the rest where more elements follow.
proof fn lemma_jarr_front(xs: Seq<JVal>)
    requires
        xs.len() >= 1,
    ensures
        xs.len() == 1 ==> jarr_bytes(xs) == jbytes(xs[0]),
        xs.len() > 1 ==> jarr_bytes(xs) == jbytes(xs[0]) + seq![44u8] + jarr_bytes(
            xs.drop_first(),
        ),
    decreases xs.len(),
{
    if xs.len() == 1 {
        assert(jarr_bytes(xs) == jbytes(xs.last()));
        assert(xs.last() == xs[0]);
    } else {
        lemma_jarr_front(xs.drop_last());
        assert(xs.drop_last().len() >= 1);
        assert(xs.drop_last()[0] == xs[0]);
        assert(xs.drop_first().drop_last() =~= xs.drop_last().drop_first());
        assert(xs.drop_first().last() == xs.last());
        if xs.len() == 2 {
            assert(jarr_bytes(xs) == jarr_bytes(xs.drop_last()) + seq![44u8] + jbytes(xs.last()));
            assert(jarr_bytes(xs.drop_last()) == jbytes(xs[0]));
            assert(jarr_bytes(xs.drop_first()) == jbytes(xs.drop_first().last()));
            assert(jbytes(xs[0]) + seq![44u8] + jbytes(xs.last()) =~= jbytes(xs[0]) + (seq![44u8]
                + jbytes(xs.last())));
            assert(jbytes(xs[0]) + (seq![44u8] + jbytes(xs.last())) =~= jbytes(xs[0]) + seq![44u8]
                + jarr_bytes(xs.drop_first()));
        } else {
            assert(jarr_bytes(xs) == jarr_bytes(xs.drop_last()) + seq![44u8] + jbytes(xs.last()));
            assert(jarr_bytes(xs.drop_last()) == jbytes(xs[0]) + seq![44u8] + jarr_bytes(
                xs.drop_last().drop_first(),
            ));
            assert(jarr_bytes(xs.drop_first()) == jarr_bytes(xs.drop_first().drop_last())
                + seq![44u8] + jbytes(xs.drop_first().last()));
            assert(jbytes(xs[0]) + seq![44u8] + jarr_bytes(xs.drop_last().drop_first()) + seq![44u8]
                + jbytes(xs.last()) =~= jbytes(xs[0]) + seq![44u8] + (jarr_bytes(
                xs.drop_first().drop_last(),
            ) + seq![44u8] + jbytes(xs.drop_first().last())));
        }
    }
}

/// Front decomposition of an object body: the first key and value, then
/// a comma and the rest where more fields follow.
proof fn lemma_jobj_front(fs: Seq<(Seq<char>, JVal)>)
    requires
        fs.len() >= 1,
    ensures
        fs.len() == 1 ==> jobj_bytes(fs) == str_bytes(fs[0].0) + seq![58u8] + jbytes(fs[0].1),
        fs.len() > 1 ==> jobj_bytes(fs) == str_bytes(fs[0].0) + seq![58u8] + jbytes(fs[0].1)
            + seq![44u8] + jobj_bytes(fs.drop_first()),
    decreases fs.len(),
{
    if fs.len() == 1 {
        assert(fs.last() == fs[0]);
    } else {
        lemma_jobj_front(fs.drop_last());
        assert(fs.drop_last().len() >= 1);
        assert(fs.drop_last()[0] == fs[0]);
        assert(fs.drop_first().drop_last() =~= fs.drop_last().drop_first());
        assert(fs.drop_first().last() == fs.last());
        let head = str_bytes(fs[0].0) + seq![58u8] + jbytes(fs[0].1);
        let tailu = str_bytes(fs.last().0) + seq![58u8] + jbytes(fs.last().1);
        if fs.len() == 2 {
            assert(jobj_bytes(fs) == jobj_bytes(fs.drop_last()) + seq![44u8] + str_bytes(
                fs.last().0,
            ) + seq![58u8] + jbytes(fs.last().1));
            assert(jobj_bytes(fs.drop_last()) == head);
            assert(jobj_bytes(fs.drop_first()) == str_bytes(fs.drop_first().last().0) + seq![58u8]
                + jbytes(fs.drop_first().last().1));
            assert(head + seq![44u8] + str_bytes(fs.last().0) + seq![58u8] + jbytes(fs.last().1)
                =~= head + seq![44u8] + (str_bytes(fs.last().0) + seq![58u8] + jbytes(
                fs.last().1,
            )));
        } else {
            assert(jobj_bytes(fs) == jobj_bytes(fs.drop_last()) + seq![44u8] + str_bytes(
                fs.last().0,
            ) + seq![58u8] + jbytes(fs.last().1));
            assert(jobj_bytes(fs.drop_last()) == head + seq![44u8] + jobj_bytes(
                fs.drop_last().drop_first(),
            ));
            assert(jobj_bytes(fs.drop_first()) == jobj_bytes(fs.drop_first().drop_last())
                + seq![44u8] + str_bytes(fs.drop_first().last().0) + seq![58u8] + jbytes(
                fs.drop_first().last().1,
            ));
            assert(head + seq![44u8] + jobj_bytes(fs.drop_last().drop_first()) + seq![44u8]
                + str_bytes(fs.last().0) + seq![58u8] + jbytes(fs.last().1) =~= head + seq![44u8]
                + (jobj_bytes(fs.drop_first().drop_last()) + seq![44u8] + str_bytes(
                fs.drop_first().last().0,
            ) + seq![58u8] + jbytes(fs.drop_first().last().1)));
        }
    }
}

/// Indexing facts for `ints_ok_seq` and `ints_ok_fields`.
proof fn lemma_ints_ok_seq_index(s: Seq<JVal>)
    requires
        ints_ok_seq(s),
    ensures
        forall|i: int| 0 <= i < s.len() ==> ints_in_range(#[trigger] s[i]),
    decreases s.len(),
{
    if s.len() > 0 {
        lemma_ints_ok_seq_index(s.drop_last());
        assert forall|i: int| 0 <= i < s.len() implies ints_in_range(#[trigger] s[i]) by {
            if i < s.len() - 1 {
                assert(s.drop_last()[i] == s[i]);
            } else {
                assert(s[i] == s.last());
            }
        }
    }
}

proof fn lemma_ints_ok_fields_index(s: Seq<(Seq<char>, JVal)>)
    requires
        ints_ok_fields(s),
    ensures
        forall|i: int| 0 <= i < s.len() ==> ints_in_range((#[trigger] s[i]).1),
    decreases s.len(),
{
    if s.len() > 0 {
        lemma_ints_ok_fields_index(s.drop_last());
        assert forall|i: int| 0 <= i < s.len() implies ints_in_range((#[trigger] s[i]).1) by {
            if i < s.len() - 1 {
                assert(s.drop_last()[i] == s[i]);
            } else {
                assert(s[i] == s.last());
            }
        }
    }
}

/// Every value an executable `JsonValue` models has its integers in
/// range: the executable tree holds `i64`s.
pub proof fn lemma_exec_ints_in_range(j: JsonValue)
    ensures
        ints_in_range(j.jval()),
    decreases j,
{
    broadcast use vstd::seq::axiom_seq_index_decreases;

    match j {
        JsonValue::Arr(xs) => {
            lemma_exec_seq_ints(xs@);
        },
        JsonValue::Obj(fs) => {
            lemma_exec_fields_ints(fs@);
        },
        _ => {},
    }
}

proof fn lemma_exec_seq_ints(s: Seq<JsonValue>)
    ensures
        ints_ok_seq(jval_seq(s)),
    decreases s,
{
    if s.len() > 0 {
        lemma_exec_seq_ints(s.drop_last());
        lemma_exec_ints_in_range(s.last());
        assert(jval_seq(s).drop_last() =~= jval_seq(s.drop_last()));
        assert(jval_seq(s).last() == s.last().jval());
    }
}

proof fn lemma_exec_fields_ints(s: Seq<(String, JsonValue)>)
    ensures
        ints_ok_fields(jval_fields(s)),
    decreases s,
{
    if s.len() > 0 {
        lemma_exec_fields_ints(s.drop_last());
        lemma_exec_ints_in_range(s.last().1);
        assert(jval_fields(s).drop_last() =~= jval_fields(s.drop_last()));
        assert(jval_fields(s).last() == (s.last().0@, s.last().1.jval()));
    }
}

} // verus!
