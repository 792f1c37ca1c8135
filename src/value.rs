use vstd::prelude::*;
use crate::error::{Error, ERROR_SUCCESS, is_status_error, status_error};

verus! {

/// Type tags of the stored values.
pub const REG_NONE: u32 = 0;
pub const REG_SZ: u32 = 1;
pub const REG_EXPAND_SZ: u32 = 2;
pub const REG_BINARY: u32 = 3;
pub const REG_DWORD: u32 = 4;
pub const REG_DWORD_BIG_ENDIAN: u32 = 5;
pub const REG_MULTI_SZ: u32 = 7;
pub const REG_QWORD: u32 = 11;

/// A typed value. Text is held as UTF-16 units without the terminating nul.
#[derive(Debug)]
pub enum Data {
    Empty,
    String(Vec<u16>),
    ExpandString(Vec<u16>),
    Binary(Vec<u8>),
    U32(u32),
    U32BE(u32),
    U64(u64),
    MultiString(Vec<Vec<u16>>),
}

/// The mathematical form of a value.
pub enum DataView {
    Empty,
    String(Seq<u16>),
    ExpandString(Seq<u16>),
    Binary(Seq<u8>),
    U32(u32),
    U32BE(u32),
    U64(u64),
    MultiString(Seq<Seq<u16>>),
}

impl View for Data {
    type V = DataView;

    open spec fn view(&self) -> DataView {
        match self {
            Data::Empty => DataView::Empty,
            Data::String(s) => DataView::String(s@),
            Data::ExpandString(s) => DataView::ExpandString(s@),
            Data::Binary(b) => DataView::Binary(b@),
            Data::U32(x) => DataView::U32(*x),
            Data::U32BE(x) => DataView::U32BE(*x),
            Data::U64(x) => DataView::U64(*x),
            Data::MultiString(v) => DataView::MultiString(v@.map_values(|s: Vec<u16>| s@)),
        }
    }
}

/// Errors of the value operations.
#[derive(Debug)]
pub enum ValueError {
    /// The store refused the request, or the name could not be encoded.
    Store(Error),
    /// The stored type tag is not one of the supported kinds.
    UnsupportedType(u32),
    /// The payload's length does not fit the stored type.
    InvalidLength(u32, usize),
    /// The value cannot be stored as it is: its text holds a nul unit, or a
    /// list holds an empty string.
    NotStorable,
}

/// Little-endian bytes of a UTF-16 sequence.
pub open spec fn units_bytes(s: Seq<u16>) -> Seq<u8> {
    Seq::new(
        2 * s.len(),
        |i: int|
            if i % 2 == 0 {
                (s[i / 2] & 0xff) as u8
            } else {
                (s[i / 2] >> 8) as u8
            },
    )
}

/// The UTF-16 units of little-endian bytes, of even length.
pub open spec fn bytes_units(b: Seq<u8>) -> Seq<u16> {
    Seq::new(b.len() / 2, |i: int| (b[2 * i] as u16) | ((b[2 * i + 1] as u16) << 8))
}

pub open spec fn le_u32(x: u32) -> Seq<u8> {
    seq![(x & 0xff) as u8, ((x >> 8) & 0xff) as u8, ((x >> 16) & 0xff) as u8, (x >> 24) as u8]
}

pub open spec fn u32_of_le(b: Seq<u8>) -> u32 {
    (b[0] as u32) | ((b[1] as u32) << 8) | ((b[2] as u32) << 16) | ((b[3] as u32) << 24)
}

pub open spec fn le_u64(x: u64) -> Seq<u8> {
    seq![
        (x & 0xff) as u8,
        ((x >> 8) & 0xff) as u8,
        ((x >> 16) & 0xff) as u8,
        ((x >> 24) & 0xff) as u8,
        ((x >> 32) & 0xff) as u8,
        ((x >> 40) & 0xff) as u8,
        ((x >> 48) & 0xff) as u8,
        (x >> 56) as u8,
    ]
}

pub open spec fn u64_of_le(b: Seq<u8>) -> u64 {
    (b[0] as u64) | ((b[1] as u64) << 8) | ((b[2] as u64) << 16) | ((b[3] as u64) << 24) | ((
    b[4] as u64) << 32) | ((b[5] as u64) << 40) | ((b[6] as u64) << 48) | ((b[7] as u64) << 56)
}

/// The index of the first nul unit, or the length where there is none.
pub open spec fn first_nul(u: Seq<u16>) -> nat
    decreases u.len(),
{
    if u.len() == 0 {
        0
    } else if u[0] == 0 {
        0
    } else {
        1 + first_nul(u.drop_first())
    }
}

/// The text of a string payload: the units before the first nul.
pub open spec fn text_of(u: Seq<u16>) -> Seq<u16> {
    u.take(first_nul(u) as int)
}

/// The strings of a list payload: nul-terminated strings, ended by an empty
/// string or by the end of the payload.
pub open spec fn texts_of(u: Seq<u16>) -> Seq<Seq<u16>>
    decreases u.len(),
{
    let k = first_nul(u);
    if u.len() == 0 || k == 0 {
        seq![]
    } else if k >= u.len() {
        seq![u]
    } else {
        seq![u.take(k as int)] + texts_of(u.skip(k + 1 as int))
    }
}

/// The units of a string list: each string with its nul, then one more nul.
pub open spec fn joined(v: Seq<Seq<u16>>) -> Seq<u16>
    decreases v.len(),
{
    if v.len() == 0 {
        seq![0u16]
    } else {
        v[0].push(0u16) + joined(v.drop_first())
    }
}

/// The type tag and payload a value is stored as.
pub open spec fn encoding_of(d: DataView) -> (u32, Seq<u8>) {
    match d {
        DataView::Empty => (REG_NONE, seq![]),
        DataView::String(s) => (REG_SZ, units_bytes(s.push(0u16))),
        DataView::ExpandString(s) => (REG_EXPAND_SZ, units_bytes(s.push(0u16))),
        DataView::Binary(b) => (REG_BINARY, b),
        DataView::U32(x) => (REG_DWORD, le_u32(x)),
        DataView::U32BE(x) => (REG_DWORD_BIG_ENDIAN, le_u32(x).reverse()),
        DataView::U64(x) => (REG_QWORD, le_u64(x)),
        DataView::MultiString(v) => (REG_MULTI_SZ, units_bytes(joined(v))),
    }
}

/// Why a payload of a supported type does not decode, if it does not.
pub open spec fn length_fits(tag: u32, len: nat) -> bool {
    if tag == REG_SZ || tag == REG_EXPAND_SZ || tag == REG_MULTI_SZ {
        len % 2 == 0
    } else if tag == REG_DWORD || tag == REG_DWORD_BIG_ENDIAN {
        len == 4
    } else if tag == REG_QWORD {
        len == 8
    } else {
        true
    }
}

pub open spec fn is_supported(tag: u32) -> bool {
    tag == REG_NONE || tag == REG_SZ || tag == REG_EXPAND_SZ || tag == REG_BINARY || tag
        == REG_DWORD || tag == REG_DWORD_BIG_ENDIAN || tag == REG_MULTI_SZ || tag == REG_QWORD
}

/// The value a supported tag and a payload of fitting length decode to.
pub open spec fn decoding_of(tag: u32, b: Seq<u8>) -> DataView {
    if tag == REG_SZ {
        DataView::String(text_of(bytes_units(b)))
    } else if tag == REG_EXPAND_SZ {
        DataView::ExpandString(text_of(bytes_units(b)))
    } else if tag == REG_BINARY {
        DataView::Binary(b)
    } else if tag == REG_DWORD {
        DataView::U32(u32_of_le(b))
    } else if tag == REG_DWORD_BIG_ENDIAN {
        DataView::U32BE(u32_of_le(b.reverse()))
    } else if tag == REG_QWORD {
        DataView::U64(u64_of_le(b))
    } else if tag == REG_MULTI_SZ {
        DataView::MultiString(texts_of(bytes_units(b)))
    } else {
        DataView::Empty
    }
}

/// Text that a string payload can carry: no nul unit.
pub open spec fn is_text(s: Seq<u16>) -> bool {
    !s.contains(0u16)
}

/// A value that its encoding can carry: text without nul units, and lists
/// whose strings are not empty (an empty string ends a list).
pub open spec fn is_storable(d: DataView) -> bool {
    match d {
        DataView::String(s) => is_text(s),
        DataView::ExpandString(s) => is_text(s),
        DataView::MultiString(v) => is_text_list(v),
        _ => true,
    }
}

/// Strings that a list payload can carry: each text, and none empty.
pub open spec fn is_text_list(v: Seq<Seq<u16>>) -> bool {
    forall|i: int| 0 <= i < v.len() ==> is_text(#[trigger] v[i]) && v[i].len() > 0
}

proof fn lemma_units_round_trip(s: Seq<u16>)
    ensures
        bytes_units(units_bytes(s)) == s,
{
    let b = units_bytes(s);
    assert forall|i: int| 0 <= i < s.len() implies #[trigger] bytes_units(b)[i] == s[i] by {
        let u = s[i];
        assert(b[2 * i] == (u & 0xff) as u8);
        assert(b[2 * i + 1] == (u >> 8) as u8);
        assert((((u & 0xff) as u8) as u16) | ((((u >> 8) as u8) as u16) << 8) == u)
            by (bit_vector);
    }
    assert(bytes_units(b) =~= s);
}

proof fn lemma_u32_round_trip(x: u32)
    ensures
        u32_of_le(le_u32(x)) == x,
{
    assert(((((x & 0xff) as u8) as u32) | (((((x >> 8) & 0xff) as u8) as u32) << 8) | (((((x
        >> 16) & 0xff) as u8) as u32) << 16) | ((((x >> 24) as u8) as u32) << 24)) == x)
        by (bit_vector);
}

proof fn lemma_u64_round_trip(x: u64)
    ensures
        u64_of_le(le_u64(x)) == x,
{
    assert(((((x & 0xff) as u8) as u64) | (((((x >> 8) & 0xff) as u8) as u64) << 8) | (((((x
        >> 16) & 0xff) as u8) as u64) << 16) | (((((x >> 24) & 0xff) as u8) as u64) << 24) | (
    ((((x >> 32) & 0xff) as u8) as u64) << 32) | (((((x >> 40) & 0xff) as u8) as u64) << 40)
        | (((((x >> 48) & 0xff) as u8) as u64) << 48) | ((((x >> 56) as u8) as u64) << 56))
        == x) by (bit_vector);
}

proof fn lemma_first_nul_of_text(s: Seq<u16>, rest: Seq<u16>)
    requires
        is_text(s),
        rest.len() > 0,
        rest[0] == 0,
    ensures
        first_nul(s + rest) == s.len(),
    decreases s.len(),
{
    if s.len() > 0 {
        assert((s + rest).drop_first() =~= s.drop_first() + rest);
        assert(s[0] != 0) by {
            assert(s.contains(s[0]));
        }
        assert(is_text(s.drop_first())) by {
            if s.drop_first().contains(0u16) {
                let k = choose|k: int| 0 <= k < s.drop_first().len() && s.drop_first()[k] == 0u16;
                assert(s[k + 1] == 0);
            }
        }
        lemma_first_nul_of_text(s.drop_first(), rest);
    } else {
        assert(s + rest =~= rest);
    }
}

proof fn lemma_text_round_trip(s: Seq<u16>)
    requires
        is_text(s),
    ensures
        text_of(s.push(0u16)) == s,
{
    assert(s.push(0u16) =~= s + seq![0u16]);
    lemma_first_nul_of_text(s, seq![0u16]);
    assert(s.push(0u16).take(s.len() as int) =~= s);
}

proof fn lemma_texts_round_trip(v: Seq<Seq<u16>>)
    requires
        is_text_list(v),
    ensures
        texts_of(joined(v)) == v,
    decreases v.len(),
{
    let u = joined(v);
    if v.len() == 0 {
        assert(first_nul(u) == 0);
        assert(texts_of(u) =~= v);
    } else {
        let head = v[0];
        let tail = v.drop_first();
        let rest = joined(tail);
        assert(is_text(head) && head.len() > 0);
        assert(forall|i: int| 0 <= i < tail.len() ==> #[trigger] tail[i] == v[i + 1]);
        lemma_texts_round_trip(tail);
        assert(u =~= head + (seq![0u16] + rest));
        lemma_first_nul_of_text(head, seq![0u16] + rest);
        assert(u.take(head.len() as int) =~= head);
        assert(u.skip(head.len() + 1 as int) =~= rest);
        assert(texts_of(u) =~= seq![head] + tail);
        assert(v =~= seq![head] + tail);
    }
}

/// Storing a value and reading it back gives the same value: its encoding
/// has a supported tag and a fitting length, and decodes to it.
pub proof fn lemma_value_round_trip(d: DataView)
    requires
        is_storable(d),
    ensures
        is_supported(encoding_of(d).0),
        length_fits(encoding_of(d).0, encoding_of(d).1.len()),
        decoding_of(encoding_of(d).0, encoding_of(d).1) == d,
{
    match d {
        DataView::String(s) => {
            lemma_units_round_trip(s.push(0u16));
            lemma_text_round_trip(s);
        },
        DataView::ExpandString(s) => {
            lemma_units_round_trip(s.push(0u16));
            lemma_text_round_trip(s);
        },
        DataView::U32(x) => lemma_u32_round_trip(x),
        DataView::U32BE(x) => {
            assert(le_u32(x).reverse().reverse() =~= le_u32(x));
            lemma_u32_round_trip(x);
        },
        DataView::U64(x) => lemma_u64_round_trip(x),
        DataView::MultiString(v) => {
            lemma_units_round_trip(joined(v));
            lemma_texts_round_trip(v);
        },
        _ => {},
    }
}

proof fn lemma_units_bytes_append(a: Seq<u16>, b: Seq<u16>)
    ensures
        units_bytes(a + b) == units_bytes(a) + units_bytes(b),
{
    assert(units_bytes(a + b) =~= units_bytes(a) + units_bytes(b));
}

proof fn lemma_first_nul_at(u: Seq<u16>, k: int)
    requires
        0 <= k <= u.len(),
        forall|j: int| 0 <= j < k ==> u[j] != 0,
        k == u.len() || u[k] == 0,
    ensures
        first_nul(u) == k,
    decreases k,
{
    if k > 0 {
        lemma_first_nul_at(u.drop_first(), k - 1);
    }
}

proof fn lemma_nul_unit_bytes()
    ensures
        units_bytes(seq![0u16]) == seq![0u8, 0u8],
{
    assert((0u16 & 0xff) == 0u16 && (0u16 >> 8) == 0u16) by (bit_vector);
    assert(units_bytes(seq![0u16]) =~= seq![0u8, 0u8]);
}

/// Appends the little-endian bytes of `s`.
fn push_units(out: &mut Vec<u8>, s: &[u16])
    ensures
        final(out)@ == old(out)@ + units_bytes(s@),
{
    let mut i: usize = 0;
    while i < s.len()
        invariant
            i <= s.len(),
            out@ == old(out)@ + units_bytes(s@.take(i as int)),
        decreases s.len() - i,
    {
        let u = s[i];
        out.push((u & 0xff) as u8);
        out.push((u >> 8) as u8);
        proof {
            assert(s@.take(i + 1) =~= s@.take(i as int) + seq![u]);
            lemma_units_bytes_append(s@.take(i as int), seq![u]);
            assert(units_bytes(seq![u]) =~= seq![(u & 0xff) as u8, (u >> 8) as u8]);
        }
        i = i + 1;
    }
    assert(s@.take(i as int) =~= s@);
}

/// Appends the bytes of `s` followed by a nul unit.
fn push_text(out: &mut Vec<u8>, s: &[u16])
    ensures
        final(out)@ == old(out)@ + units_bytes(s@.push(0u16)),
{
    push_units(out, s);
    out.push(0);
    out.push(0);
    proof {
        assert(s@.push(0u16) =~= s@ + seq![0u16]);
        lemma_units_bytes_append(s@, seq![0u16]);
        lemma_nul_unit_bytes();
    }
}

/// The type tag and payload that a value is stored as.
pub fn encode(d: &Data) -> (r: (u32, Vec<u8>))
    ensures
        r.0 == encoding_of(d@).0,
        r.1@ == encoding_of(d@).1,
{
    match d {
        Data::Empty => (REG_NONE, Vec::new()),
        Data::String(s) => {
            let mut out: Vec<u8> = Vec::new();
            push_text(&mut out, s.as_slice());
            (REG_SZ, out)
        },
        Data::ExpandString(s) => {
            let mut out: Vec<u8> = Vec::new();
            push_text(&mut out, s.as_slice());
            (REG_EXPAND_SZ, out)
        },
        Data::Binary(b) => {
            let mut out: Vec<u8> = Vec::new();
            let mut i: usize = 0;
            while i < b.len()
                invariant
                    i <= b.len(),
                    out@ == b@.take(i as int),
                decreases b.len() - i,
            {
                out.push(b[i]);
                assert(b@.take(i + 1) =~= b@.take(i as int).push(b@[i as int]));
                i = i + 1;
            }
            assert(b@.take(i as int) =~= b@);
            (REG_BINARY, out)
        },
        Data::U32(x) => {
            let x = *x;
            let out = vec![(x & 0xff) as u8, ((x >> 8) & 0xff) as u8, ((x >> 16) & 0xff) as u8, (x
                >> 24) as u8];
            assert(out@ =~= le_u32(x));
            (REG_DWORD, out)
        },
        Data::U32BE(x) => {
            let x = *x;
            let out = vec![(x >> 24) as u8, ((x >> 16) & 0xff) as u8, ((x >> 8) & 0xff) as u8, (x
                & 0xff) as u8];
            assert(out@ =~= le_u32(x).reverse());
            (REG_DWORD_BIG_ENDIAN, out)
        },
        Data::U64(x) => {
            let x = *x;
            let out = vec![
                (x & 0xff) as u8,
                ((x >> 8) & 0xff) as u8,
                ((x >> 16) & 0xff) as u8,
                ((x >> 24) & 0xff) as u8,
                ((x >> 32) & 0xff) as u8,
                ((x >> 40) & 0xff) as u8,
                ((x >> 48) & 0xff) as u8,
                (x >> 56) as u8,
            ];
            assert(out@ =~= le_u64(x));
            (REG_QWORD, out)
        },
        Data::MultiString(v) => {
            let ghost vv = v@.map_values(|s: Vec<u16>| s@);
            let mut out: Vec<u8> = Vec::new();
            let mut i: usize = 0;
            assert(vv.skip(0) =~= vv);
            while i < v.len()
                invariant
                    i <= v.len(),
                    vv == v@.map_values(|s: Vec<u16>| s@),
                    units_bytes(joined(vv)) == out@ + units_bytes(joined(vv.skip(i as int))),
                decreases v.len() - i,
            {
                push_text(&mut out, v[i].as_slice());
                proof {
                    let rest = vv.skip(i as int);
                    assert(rest[0] == v@[i as int]@);
                    assert(rest.drop_first() =~= vv.skip(i + 1));
                    lemma_units_bytes_append(rest[0].push(0u16), joined(vv.skip(i + 1)));
                }
                i = i + 1;
            }
            out.push(0);
            out.push(0);
            proof {
                assert(vv.skip(i as int).len() == 0);
                lemma_nul_unit_bytes();
            }
            (REG_MULTI_SZ, out)
        },
    }
}

/// The UTF-16 units of little-endian bytes; an odd last byte is left out.
fn units_from(b: &[u8]) -> (r: Vec<u16>)
    ensures
        r@ == bytes_units(b@),
{
    let n = b.len() / 2;
    let mut r: Vec<u16> = Vec::new();
    let mut i: usize = 0;
    while i < n
        invariant
            n == b.len() / 2,
            i <= n,
            r@ == bytes_units(b@).take(i as int),
        decreases n - i,
    {
        let u = (b[2 * i] as u16) | ((b[2 * i + 1] as u16) << 8);
        r.push(u);
        assert(bytes_units(b@).take(i + 1) =~= bytes_units(b@).take(i as int).push(u));
        i = i + 1;
    }
    assert(bytes_units(b@).take(i as int) =~= bytes_units(b@));
    r
}

/// The index of the first nul unit at or after `start`, or the length.
fn scan_nul(u: &[u16], start: usize) -> (k: usize)
    requires
        start <= u@.len(),
    ensures
        start <= k <= u@.len(),
        first_nul(u@.skip(start as int)) == k - start,
{
    let mut k: usize = start;
    while k < u.len() && u[k] != 0
        invariant
            start <= k <= u@.len(),
            forall|j: int| start <= j < k ==> u@[j] != 0,
        decreases u.len() - k,
    {
        k = k + 1;
    }
    proof {
        lemma_first_nul_at(u@.skip(start as int), k - start);
    }
    k
}

/// A copy of `u[start..end]`.
fn copy_range(u: &[u16], start: usize, end: usize) -> (r: Vec<u16>)
    requires
        start <= end <= u@.len(),
    ensures
        r@ == u@.subrange(start as int, end as int),
{
    let mut r: Vec<u16> = Vec::new();
    let mut i: usize = start;
    while i < end
        invariant
            start <= i <= end <= u@.len(),
            r@ == u@.subrange(start as int, i as int),
        decreases end - i,
    {
        r.push(u[i]);
        assert(u@.subrange(start as int, i + 1) =~= u@.subrange(start as int, i as int).push(
            u@[i as int],
        ));
        i = i + 1;
    }
    r
}

/// The text of a string payload's units.
fn text_from(u: &[u16]) -> (r: Vec<u16>)
    ensures
        r@ == text_of(u@),
{
    let k = scan_nul(u, 0);
    assert(u@.skip(0) =~= u@);
    let r = copy_range(u, 0, k);
    assert(u@.subrange(0, k as int) =~= u@.take(k as int));
    r
}

/// The strings of a list payload's units.
fn texts_from(u: &[u16]) -> (r: Vec<Vec<u16>>)
    ensures
        r@.map_values(|s: Vec<u16>| s@) == texts_of(u@),
{
    let mut r: Vec<Vec<u16>> = Vec::new();
    let mut start: usize = 0;
    let mut done = false;
    assert(u@.skip(0) =~= u@);
    while !done && start < u.len()
        invariant
            start <= u@.len(),
            done ==> r@.map_values(|s: Vec<u16>| s@) == texts_of(u@),
            !done ==> r@.map_values(|s: Vec<u16>| s@) + texts_of(u@.skip(start as int))
                == texts_of(u@),
        decreases u.len() - start + (if done { 0int } else { 1int }),
    {
        let ghost rest = u@.skip(start as int);
        let ghost before = r@.map_values(|s: Vec<u16>| s@);
        let k = scan_nul(u, start);
        if k == start {
            done = true;
            assert(texts_of(rest) =~= seq![]);
            assert(before + texts_of(rest) =~= before);
        } else {
            let t = copy_range(u, start, k);
            r.push(t);
            assert(r@.map_values(|s: Vec<u16>| s@) =~= before.push(t@));
            if k == u.len() {
                done = true;
                assert(rest.len() == k - start);
                assert(texts_of(rest) =~= seq![rest]);
                assert(t@ =~= rest);
                assert(before + seq![rest] =~= before.push(t@));
            } else {
                assert(rest.take(k - start) =~= t@);
                assert(rest.skip(k - start + 1) =~= u@.skip(k + 1));
                assert(texts_of(rest) =~= seq![t@] + texts_of(u@.skip(k + 1)));
                assert(before + (seq![t@] + texts_of(u@.skip(k + 1))) =~= before.push(t@)
                    + texts_of(u@.skip(k + 1)));
                start = k + 1;
            }
        }
    }
    if !done {
        assert(u@.skip(start as int).len() == 0);
        assert(texts_of(u@.skip(start as int)) =~= seq![]);
        assert(r@.map_values(|s: Vec<u16>| s@) + seq![] =~= r@.map_values(|s: Vec<u16>| s@));
    }
    r
}

/// `r` is what decoding `tag` and `b` gives: an unsupported tag and a payload
/// whose length does not fit its type are refused.
pub open spec fn is_decoding(tag: u32, b: Seq<u8>, r: Result<Data, ValueError>) -> bool {
    if !is_supported(tag) {
        r matches Err(ValueError::UnsupportedType(t)) && t == tag
    } else if !length_fits(tag, b.len()) {
        r matches Err(ValueError::InvalidLength(t, n)) && t == tag && n == b.len()
    } else {
        r matches Ok(d) && d@ == decoding_of(tag, b)
    }
}

/// Decodes a stored type tag and payload into a typed value.
pub fn decode(tag: u32, b: &[u8]) -> (r: Result<Data, ValueError>)
    ensures
        is_decoding(tag, b@, r),
{
    if tag == REG_NONE {
        Ok(Data::Empty)
    } else if tag == REG_SZ || tag == REG_EXPAND_SZ || tag == REG_MULTI_SZ {
        if b.len() % 2 != 0 {
            return Err(ValueError::InvalidLength(tag, b.len()));
        }
        let u = units_from(b);
        if tag == REG_SZ {
            Ok(Data::String(text_from(u.as_slice())))
        } else if tag == REG_EXPAND_SZ {
            Ok(Data::ExpandString(text_from(u.as_slice())))
        } else {
            Ok(Data::MultiString(texts_from(u.as_slice())))
        }
    } else if tag == REG_BINARY {
        let mut out: Vec<u8> = Vec::new();
        let mut i: usize = 0;
        while i < b.len()
            invariant
                i <= b.len(),
                out@ == b@.take(i as int),
            decreases b.len() - i,
        {
            out.push(b[i]);
            assert(b@.take(i + 1) =~= b@.take(i as int).push(b@[i as int]));
            i = i + 1;
        }
        assert(b@.take(i as int) =~= b@);
        Ok(Data::Binary(out))
    } else if tag == REG_DWORD {
        if b.len() != 4 {
            return Err(ValueError::InvalidLength(tag, b.len()));
        }
        Ok(
            Data::U32(
                (b[0] as u32) | ((b[1] as u32) << 8) | ((b[2] as u32) << 16) | ((b[3] as u32)
                    << 24),
            ),
        )
    } else if tag == REG_DWORD_BIG_ENDIAN {
        if b.len() != 4 {
            return Err(ValueError::InvalidLength(tag, b.len()));
        }
        let ghost rev = b@.reverse();
        assert(rev[0] == b@[3] && rev[1] == b@[2] && rev[2] == b@[1] && rev[3] == b@[0]);
        Ok(
            Data::U32BE(
                (b[3] as u32) | ((b[2] as u32) << 8) | ((b[1] as u32) << 16) | ((b[0] as u32)
                    << 24),
            ),
        )
    } else if tag == REG_QWORD {
        if b.len() != 8 {
            return Err(ValueError::InvalidLength(tag, b.len()));
        }
        Ok(
            Data::U64(
                (b[0] as u64) | ((b[1] as u64) << 8) | ((b[2] as u64) << 16) | ((b[3] as u64)
                    << 24) | ((b[4] as u64) << 32) | ((b[5] as u64) << 40) | ((b[6] as u64)
                    << 48) | ((b[7] as u64) << 56),
            ),
        )
    } else {
        Err(ValueError::UnsupportedType(tag))
    }
}

/// The value read by a query on the value `name` that answered `status`,
/// with the stored type tag and payload.
pub fn value_from_reply(name: &str, status: i32, tag: u32, payload: &[u8]) -> (r: Result<
    Data,
    ValueError,
>)
    ensures
        status != ERROR_SUCCESS ==> (r matches Err(ValueError::Store(e)) && is_status_error(
            e,
            name@,
            status,
        )),
        status == ERROR_SUCCESS ==> is_decoding(tag, payload@, r),
{
    if status != ERROR_SUCCESS {
        Err(ValueError::Store(status_error(name.to_owned(), status)))
    } else {
        decode(tag, payload)
    }
}

/// The result of a write or a removal of the value `name` that answered
/// `status`.
pub fn value_unit_from_status(name: &str, status: i32) -> (r: Result<(), ValueError>)
    ensures
        status == ERROR_SUCCESS <==> r is Ok,
        r matches Err(ValueError::Store(e)) ==> is_status_error(e, name@, status),
        r is Err ==> r matches Err(ValueError::Store(_)),
{
    if status == ERROR_SUCCESS {
        Ok(())
    } else {
        Err(ValueError::Store(status_error(name.to_owned(), status)))
    }
}

/// Whether `s` holds no nul unit.
fn units_are_text(s: &[u16]) -> (r: bool)
    ensures
        r == is_text(s@),
{
    let mut i: usize = 0;
    while i < s.len()
        invariant
            i <= s.len(),
            forall|j: int| 0 <= j < i ==> s@[j] != 0,
        decreases s.len() - i,
    {
        if s[i] == 0 {
            assert(s@.contains(0u16));
            return false;
        }
        i = i + 1;
    }
    proof {
        if s@.contains(0u16) {
            let k = choose|k: int| 0 <= k < s@.len() && s@[k] == 0u16;
            assert(s@[k] != 0);
        }
    }
    true
}

/// Whether a value can be stored and read back as it is.
pub fn storable(d: &Data) -> (r: bool)
    ensures
        r == is_storable(d@),
{
    match d {
        Data::String(s) => units_are_text(s.as_slice()),
        Data::ExpandString(s) => units_are_text(s.as_slice()),
        Data::MultiString(v) => {
            let ghost vv = d@->MultiString_0;
            let mut i: usize = 0;
            while i < v.len()
                invariant
                    i <= v.len(),
                    d@ == DataView::MultiString(vv),
                    *d == Data::MultiString(*v),
                    forall|j: int| 0 <= j < i ==> is_text(#[trigger] vv[j]) && vv[j].len() > 0,
                decreases v.len() - i,
            {
                assert(vv.len() == v@.len() && vv[i as int] == v@[i as int]@);
                if v[i].len() == 0 || !units_are_text(v[i].as_slice()) {
                    assert(!(is_text(vv[i as int]) && vv[i as int].len() > 0));
                    return false;
                }
                i = i + 1;
            }
            true
        },
        _ => true,
    }
}

/// The type tag and payload to write for `d`, refused where reading them
/// back would not give `d`.
pub fn encode_for_store(d: &Data) -> (r: Result<(u32, Vec<u8>), ValueError>)
    ensures
        is_storable(d@) <==> r is Ok,
        r matches Err(e) ==> e matches ValueError::NotStorable,
        r matches Ok(p) ==> p.0 == encoding_of(d@).0 && p.1@ == encoding_of(d@).1
            && is_supported(p.0) && length_fits(p.0, p.1@.len()) && decoding_of(p.0, p.1@)
            == d@,
{
    if !storable(d) {
        return Err(ValueError::NotStorable);
    }
    proof {
        lemma_value_round_trip(d@);
    }
    Ok(encode(d))
}

} // verus!
