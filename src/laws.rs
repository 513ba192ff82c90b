use vstd::prelude::*;
use crate::error::ErrorType;
use crate::reader::{byte_at, bytes_at, leb_from, leb_u32, lemma_pow128_small, name_at, pow128};
use crate::walker::{
    export_entries, export_section, exported_functions, has_header, lemma_section_at_advances, names_result,
    section_at, sections, EXPORT_SECTION, FUNCTION_KIND,
};
use vstd::utf8::{decode_utf8, valid_utf8};

verus! {

/// The shortest unsigned LEB128 encoding of `v`.
pub open spec fn leb_encode(v: nat) -> Seq<u8>
    decreases v,
{
    if v < 128 {
        seq![v as u8]
    } else {
        seq![(v % 128 + 128) as u8] + leb_encode(v / 128)
    }
}

/// From `pos` on, the module is a run of complete sections, none of which is
/// an Export section.
pub open spec fn sections_without_exports(d: Seq<u8>, pos: int) -> bool
    decreases d.len() - pos,
{
    if pos >= d.len() {
        true
    } else {
        match section_at(d, pos) {
            Err(_) => false,
            Ok((tag, start, len)) => if tag == EXPORT_SECTION {
                false
            } else {
                proof {
                    lemma_section_at_advances(d, pos);
                }
                sections_without_exports(d, start + len)
            },
        }
    }
}

/// A LEB128 integer that decodes in one window decodes the same in any other
/// window that starts with the same bytes.
pub proof fn lemma_leb_frame(d1: Seq<u8>, p1: int, e1: int, d2: Seq<u8>, p2: int, e2: int, i: nat, acc: nat)
    requires
        i <= 4,
        0 <= p1 <= e1 <= d1.len(),
        0 <= p2,
        p2 + (e1 - p1) <= e2 <= d2.len(),
        d2.subrange(p2, p2 + (e1 - p1)) == d1.subrange(p1, e1),
        leb_from(d1, p1, e1, i, acc) is Ok,
    ensures
        leb_from(d1, p1, e1, i, acc) matches Ok((v, q)) && leb_from(d2, p2, e2, i, acc) == Ok::<(nat, int), ErrorType>((v, q - p1 + p2)),
    decreases 4 - i,
{
    if p1 + i < e1 {
        assert(d1[p1 + i] == d1.subrange(p1, e1)[i as int]);
        assert(d2[p2 + i] == d2.subrange(p2, p2 + (e1 - p1))[i as int]);
    }
    if i < 4 && d1[p1 + i] >= 128 {
        lemma_leb_frame(d1, p1, e1, d2, p2, e2, i + 1, (acc + (d1[p1 + i] - 128) * pow128(i)) as nat);
    }
}

proof fn lemma_leb_encode_decodes(d: Seq<u8>, pos: int, end: int, i: nat, acc: nat, v: nat)
    requires
        i <= 4,
        acc < pow128(i),
        v * pow128(i) < 0x1_0000_0000,
        0 <= pos,
        pos + i + leb_encode(v).len() <= end <= d.len(),
        d.subrange(pos + i, pos + i + leb_encode(v).len()) == leb_encode(v),
    ensures
        leb_from(d, pos, end, i, acc) == Ok::<(nat, int), ErrorType>(((acc + v * pow128(i)) as nat, pos + i + leb_encode(v).len())),
    decreases v,
{
    lemma_pow128_small(i);
    let enc = leb_encode(v);
    assert(d[pos + i] == d.subrange(pos + i, pos + i + enc.len())[0]);
    let p = pow128(i);
    if v < 128 {
        if i >= 4 {
            assert(v < 16) by (nonlinear_arith)
                requires
                    v * p < 0x1_0000_0000,
                    p == 0x1000_0000,
            ;
        }
    } else {
        if i >= 4 {
            assert(false) by (nonlinear_arith)
                requires
                    v * p < 0x1_0000_0000,
                    p == 0x1000_0000,
                    v >= 128,
            ;
        }
        let w = v / 128;
        let acc2 = (acc + (v % 128) * p) as nat;
        assert(acc2 < 128 * p) by (nonlinear_arith)
            requires
                acc2 == acc + (v % 128) * p,
                acc < p,
                v % 128 < 128,
        ;
        assert(w * (128 * p) < 0x1_0000_0000) by (nonlinear_arith)
            requires
                w == v / 128,
                v * p < 0x1_0000_0000,
                p >= 1,
        ;
        let rest = leb_encode(w);
        assert(enc == seq![(v % 128 + 128) as u8] + rest);
        assert(d.subrange(pos + i + 1, pos + i + 1 + rest.len()) =~= rest) by {
            assert forall|j: int| 0 <= j < rest.len() implies d.subrange(pos + i + 1, pos + i + 1 + rest.len())[j] == rest[j] by {
                assert(d.subrange(pos + i, pos + i + enc.len())[j + 1] == enc[j + 1]);
            }
        }
        lemma_leb_encode_decodes(d, pos, end, i + 1, acc2, w);
        assert(acc2 + w * (128 * p) == acc + v * p) by (nonlinear_arith)
            requires
                acc2 == acc + (v % 128) * p,
                w == v / 128,
        ;
    }
}

/// Round trip: the shortest LEB128 encoding of any 32-bit integer, followed
/// by any bytes, decodes to that integer and ends right after the encoding.
pub proof fn lemma_leb_round_trip(v: u32, rest: Seq<u8>)
    ensures
        leb_u32(leb_encode(v as nat) + rest, 0, (leb_encode(v as nat) + rest).len() as int)
            == Ok::<(nat, int), ErrorType>((v as nat, leb_encode(v as nat).len() as int)),
{
    let enc = leb_encode(v as nat);
    let d = enc + rest;
    lemma_pow128_small(0);
    assert(d.subrange(0, enc.len() as int) =~= enc);
    lemma_leb_encode_decodes(d, 0, d.len() as int, 0, 0, v as nat);
}

/// The LEB128 encoding of `v` in exactly `n` bytes: the shortest one when
/// `n` is as small as it can be, else one padded with zero groups.
pub open spec fn leb_encode_in(v: nat, n: nat) -> Seq<u8>
    decreases n,
{
    if n <= 1 {
        seq![v as u8]
    } else {
        seq![(v % 128 + 128) as u8] + leb_encode_in(v / 128, (n - 1) as nat)
    }
}

proof fn lemma_leb_encode_in_decodes(d: Seq<u8>, pos: int, end: int, i: nat, acc: nat, v: nat, n: nat)
    requires
        1 <= n,
        i + n <= 5,
        v < pow128(n),
        acc < pow128(i),
        v * pow128(i) < 0x1_0000_0000,
        0 <= pos,
        pos + i + n <= end <= d.len(),
        d.subrange(pos + i, pos + i + n) == leb_encode_in(v, n),
    ensures
        leb_from(d, pos, end, i, acc) == Ok::<(nat, int), ErrorType>(((acc + v * pow128(i)) as nat, pos + i + n)),
    decreases n,
{
    lemma_pow128_small(i);
    let enc = leb_encode_in(v, n);
    assert(d[pos + i] == d.subrange(pos + i, pos + i + n)[0]);
    let p = pow128(i);
    if n == 1 {
        lemma_pow128_small(1);
        if i >= 4 {
            assert(v < 16) by (nonlinear_arith)
                requires
                    v * p < 0x1_0000_0000,
                    p == 0x1000_0000,
            ;
        }
    } else {
        let m = (n - 1) as nat;
        let w = v / 128;
        assert(pow128(n) == 128 * pow128(m));
        assert(w < pow128(m)) by (nonlinear_arith)
            requires
                w == v / 128,
                v < 128 * pow128(m),
        ;
        let acc2 = (acc + (v % 128) * p) as nat;
        assert(acc2 < 128 * p) by (nonlinear_arith)
            requires
                acc2 == acc + (v % 128) * p,
                acc < p,
                v % 128 < 128,
        ;
        assert(w * (128 * p) < 0x1_0000_0000) by (nonlinear_arith)
            requires
                w == v / 128,
                v * p < 0x1_0000_0000,
                p >= 1,
        ;
        let rest = leb_encode_in(w, m);
        assert(enc == seq![(v % 128 + 128) as u8] + rest);
        assert(d.subrange(pos + i + 1, pos + i + 1 + m) =~= rest) by {
            assert forall|j: int| 0 <= j < m implies d.subrange(pos + i + 1, pos + i + 1 + m)[j] == rest[j] by {
                assert(d.subrange(pos + i, pos + i + n)[j + 1] == enc[j + 1]);
            }
        }
        lemma_leb_encode_in_decodes(d, pos, end, i + 1, acc2, w, m);
        assert(acc2 + w * (128 * p) == acc + v * p) by (nonlinear_arith)
            requires
                acc2 == acc + (v % 128) * p,
                w == v / 128,
        ;
    }
}

/// Round trip, padded too: every LEB128 encoding of a 32-bit integer in one
/// to five bytes, followed by any bytes, decodes to that integer and ends
/// right after the encoding.
pub proof fn lemma_leb_round_trip_padded(v: u32, n: nat, rest: Seq<u8>)
    requires
        1 <= n <= 5,
        v < pow128(n),
    ensures
        leb_u32(leb_encode_in(v as nat, n) + rest, 0, (leb_encode_in(v as nat, n) + rest).len() as int)
            == Ok::<(nat, int), ErrorType>((v as nat, n as int)),
{
    let enc = leb_encode_in(v as nat, n);
    let d = enc + rest;
    lemma_leb_encode_in_len(v as nat, n);
    lemma_pow128_small(0);
    assert(d.subrange(0, n as int) =~= enc);
    lemma_leb_encode_in_decodes(d, 0, d.len() as int, 0, 0, v as nat, n);
}

proof fn lemma_leb_encode_in_len(v: nat, n: nat)
    ensures
        n >= 1 ==> leb_encode_in(v, n).len() == n,
    decreases n,
{
    if n > 1 {
        lemma_leb_encode_in_len(v / 128, (n - 1) as nat);
    }
}

/// Five bytes that all ask for one more byte make a malformed integer.
pub proof fn lemma_leb_overlong(d: Seq<u8>, pos: int, end: int)
    requires
        pos + 5 <= end,
        forall|j: int| 0 <= j < 5 ==> #[trigger] d[pos + j] >= 128,
    ensures
        leb_u32(d, pos, end) == Err::<(nat, int), ErrorType>(ErrorType::MalformedVarint),
{
    assert(d[pos + 0] >= 128);
    assert(d[pos + 1] >= 128);
    assert(d[pos + 2] >= 128);
    assert(d[pos + 3] >= 128);
    assert(d[pos + 4] >= 128);
    reveal_with_fuel(leb_from, 5);
}

proof fn lemma_sections_without_exports(d: Seq<u8>, pos: int, acc: Seq<Seq<char>>)
    requires
        sections_without_exports(d, pos),
    ensures
        sections(d, pos, acc) == Ok::<Seq<Seq<char>>, ErrorType>(acc),
    decreases d.len() - pos,
{
    if pos < d.len() {
        lemma_section_at_advances(d, pos);
        if let Ok((_tag, start, len)) = section_at(d, pos) {
            lemma_sections_without_exports(d, start + len, acc);
        }
    }
}

/// A module without an Export section exports no function: the result is an
/// empty list, not an error.
pub proof fn lemma_no_export_section(d: Seq<u8>)
    requires
        has_header(d),
        sections_without_exports(d, 8),
    ensures
        exported_functions(d) == Ok::<Seq<Seq<char>>, ErrorType>(seq![]),
{
    lemma_sections_without_exports(d, 8, seq![]);
}

proof fn lemma_sections_prefix(m: Seq<u8>, t: Seq<u8>, pos: int, acc: Seq<Seq<char>>)
    requires
        0 <= pos <= m.len(),
        sections_without_exports(m, pos),
    ensures
        sections(m + t, pos, acc) == sections(m + t, m.len() as int, acc),
    decreases m.len() - pos,
{
    let d = m + t;
    if pos < m.len() {
        lemma_section_at_advances(m, pos);
        if let Ok((_tag, start, len)) = section_at(m, pos) {
            assert(d.subrange(pos + 1, m.len() as int) =~= m.subrange(pos + 1, m.len() as int));
            lemma_leb_frame(m, pos + 1, m.len() as int, d, pos + 1, d.len() as int, 0, 0);
            assert(d[pos] == m[pos]);
            lemma_sections_prefix(m, t, start + len, acc);
        }
    }
}

/// Walking the sections from `pos` gets to a section header at `k` without
/// error: every section before it is complete, and every Export section
/// before it decodes.
pub open spec fn walk_reaches(d: Seq<u8>, pos: int, k: int) -> bool
    decreases d.len() - pos,
{
    if pos == k {
        true
    } else if pos >= d.len() {
        false
    } else {
        match section_at(d, pos) {
            Err(_) => false,
            Ok((tag, start, len)) => if tag == EXPORT_SECTION && export_section(d, start, start + len, seq![]) is Err {
                false
            } else {
                proof {
                    lemma_section_at_advances(d, pos);
                }
                walk_reaches(d, start + len, k)
            },
        }
    }
}

/// The section at `k` fails with `e`: its header is broken, or it is an
/// Export section whose payload fails to decode.
pub open spec fn section_fails(d: Seq<u8>, k: int, e: ErrorType) -> bool {
    k < d.len() && match section_at(d, k) {
        Err(x) => x == e,
        Ok((tag, start, len)) => tag == EXPORT_SECTION && export_section(d, start, start + len, seq![])
            == Err::<Seq<Seq<char>>, ErrorType>(e),
    }
}

proof fn lemma_entries_any_acc(d: Seq<u8>, pos: int, end: int, k: nat, a1: Seq<Seq<char>>, a2: Seq<Seq<char>>)
    ensures
        export_entries(d, pos, end, k, a1) is Ok <==> export_entries(d, pos, end, k, a2) is Ok,
        export_entries(d, pos, end, k, a1) is Err ==> export_entries(d, pos, end, k, a1) == export_entries(d, pos, end, k, a2),
    decreases k,
{
    if k > 0 {
        if let Ok((name, p)) = name_at(d, pos, end) {
            if let Ok((kind, q)) = byte_at(d, p, end) {
                if let Ok((_index, s)) = leb_u32(d, q, end) {
                    let b1 = if kind == FUNCTION_KIND { a1.push(name) } else { a1 };
                    let b2 = if kind == FUNCTION_KIND { a2.push(name) } else { a2 };
                    lemma_entries_any_acc(d, s, end, (k - 1) as nat, b1, b2);
                }
            }
        }
    }
}

/// Whether an Export section decodes, and how it fails, does not depend on
/// the names gathered before it.
proof fn lemma_export_section_any_acc(d: Seq<u8>, start: int, end: int, a1: Seq<Seq<char>>, a2: Seq<Seq<char>>)
    ensures
        export_section(d, start, end, a1) is Ok <==> export_section(d, start, end, a2) is Ok,
        export_section(d, start, end, a1) is Err ==> export_section(d, start, end, a1) == export_section(d, start, end, a2),
{
    if let Ok((n, p)) = leb_u32(d, start, end) {
        lemma_entries_any_acc(d, p, end, n, a1, a2);
    }
}

proof fn lemma_walk_error(d: Seq<u8>, pos: int, k: int, acc: Seq<Seq<char>>, e: ErrorType)
    requires
        walk_reaches(d, pos, k),
        section_fails(d, k, e),
    ensures
        sections(d, pos, acc) == Err::<Seq<Seq<char>>, ErrorType>(e),
    decreases d.len() - pos,
{
    if pos == k {
        if let Ok((tag, start, len)) = section_at(d, k) {
            lemma_export_section_any_acc(d, start, start + len, acc, seq![]);
        }
    } else {
        lemma_section_at_advances(d, pos);
        if let Ok((tag, start, len)) = section_at(d, pos) {
            if tag == EXPORT_SECTION {
                lemma_export_section_any_acc(d, start, start + len, acc, seq![]);
                if let Ok(names) = export_section(d, start, start + len, acc) {
                    lemma_walk_error(d, start + len, k, names, e);
                }
            } else {
                lemma_walk_error(d, start + len, k, acc, e);
            }
        }
    }
}

/// A section that fails anywhere the walk gets to fails the whole parse with
/// its error, and no list comes out.
pub proof fn lemma_section_failure_fails_parse(d: Seq<u8>, k: int, e: ErrorType)
    requires
        has_header(d),
        walk_reaches(d, 8, k),
        section_fails(d, k, e),
    ensures
        exported_functions(d) == Err::<Seq<Seq<char>>, ErrorType>(e),
{
    lemma_walk_error(d, 8, k, seq![], e);
}

/// An Export section whose declared length runs past the end of the module
/// fails the parse with a truncated section, wherever the walk meets it.
pub proof fn lemma_export_section_overrun(d: Seq<u8>, k: int)
    requires
        has_header(d),
        walk_reaches(d, 8, k),
        0 <= k < d.len(),
        d[k] == EXPORT_SECTION,
        leb_u32(d, k + 1, d.len() as int) matches Ok((len, p)) && len > d.len() - p,
    ensures
        exported_functions(d) == Err::<Seq<Seq<char>>, ErrorType>(ErrorType::TruncatedSection),
{
    lemma_section_failure_fails_parse(d, k, ErrorType::TruncatedSection);
}

/// A section length whose first five bytes all ask for one more byte fails
/// the parse as malformed, wherever the walk meets it.
pub proof fn lemma_overlong_section_length(d: Seq<u8>, k: int)
    requires
        has_header(d),
        walk_reaches(d, 8, k),
        0 <= k,
        k + 6 <= d.len(),
        forall|j: int| 1 <= j <= 5 ==> #[trigger] d[k + j] >= 128,
    ensures
        exported_functions(d) == Err::<Seq<Seq<char>>, ErrorType>(ErrorType::MalformedVarint),
{
    assert forall|j: int| 0 <= j < 5 implies #[trigger] d[(k + 1) + j] >= 128 by {
        assert(d[k + (j + 1)] >= 128);
        assert(k + (j + 1) == (k + 1) + j);
    }
    lemma_leb_overlong(d, k + 1, d.len() as int);
    lemma_section_failure_fails_parse(d, k, ErrorType::MalformedVarint);
}

/// An Export section whose entry count does not end within five bytes fails
/// the parse as malformed, wherever the walk meets it.
pub proof fn lemma_overlong_export_count(d: Seq<u8>, k: int)
    requires
        has_header(d),
        walk_reaches(d, 8, k),
        0 <= k,
        section_at(d, k) matches Ok((tag, start, len)) && tag == EXPORT_SECTION && len >= 5
            && forall|j: int| 0 <= j < 5 ==> #[trigger] d[start + j] >= 128,
    ensures
        exported_functions(d) == Err::<Seq<Seq<char>>, ErrorType>(ErrorType::MalformedVarint),
{
    if let Ok((tag, start, len)) = section_at(d, k) {
        lemma_leb_overlong(d, start, start + len);
    }
    lemma_section_failure_fails_parse(d, k, ErrorType::MalformedVarint);
}

/// An export entry whose name length does not end within five bytes makes
/// the entries that start with it malformed.
pub proof fn lemma_overlong_name_length(d: Seq<u8>, pos: int, end: int, k: nat, acc: Seq<Seq<char>>)
    requires
        k > 0,
        pos + 5 <= end,
        forall|j: int| 0 <= j < 5 ==> #[trigger] d[pos + j] >= 128,
    ensures
        export_entries(d, pos, end, k, acc) == Err::<Seq<Seq<char>>, ErrorType>(ErrorType::MalformedVarint),
{
    lemma_leb_overlong(d, pos, end);
}

/// An export entry whose index does not end within five bytes makes the
/// entries that start with it malformed.
pub proof fn lemma_overlong_export_index(d: Seq<u8>, pos: int, end: int, k: nat, acc: Seq<Seq<char>>)
    requires
        k > 0,
        name_at(d, pos, end) matches Ok((_name, p)) && p + 6 <= end
            && forall|j: int| 0 <= j < 5 ==> #[trigger] d[p + 1 + j] >= 128,
    ensures
        export_entries(d, pos, end, k, acc) == Err::<Seq<Seq<char>>, ErrorType>(ErrorType::MalformedVarint),
{
    if let Ok((_name, p)) = name_at(d, pos, end) {
        lemma_leb_overlong(d, p + 1, end);
    }
}

/// Bytes that do not start with the magic bytes and version fail with a
/// header error before any section is read.
pub proof fn lemma_bad_header(d: Seq<u8>)
    requires
        !has_header(d),
    ensures
        exported_functions(d) == Err::<Seq<Seq<char>>, ErrorType>(ErrorType::BadHeader),
{
}

/// Parsing the same bytes twice gives the same list, or the same error.
pub proof fn lemma_parse_idempotent(d: Seq<u8>, first: Result<Vec<String>, ErrorType>, second: Result<Vec<String>, ErrorType>)
    requires
        names_result(first) == exported_functions(d),
        names_result(second) == exported_functions(d),
    ensures
        names_result(first) == names_result(second),
{
}

/// One export entry as written in a module: the bytes of its name, its kind
/// tag and its index.
pub type ExportDecl = (Seq<u8>, u8, u32);

/// The bytes of one export entry.
pub open spec fn encode_entry(e: ExportDecl) -> Seq<u8> {
    leb_encode(e.0.len()) + e.0 + seq![e.1] + leb_encode(e.2 as nat)
}

/// The bytes of a run of export entries.
pub open spec fn encode_entries(es: Seq<ExportDecl>) -> Seq<u8>
    decreases es.len(),
{
    if es.len() == 0 {
        seq![]
    } else {
        encode_entry(es[0]) + encode_entries(es.drop_first())
    }
}

/// A whole Export section: tag, payload length, entry count, entries.
pub open spec fn encode_export_section(es: Seq<ExportDecl>) -> Seq<u8> {
    let payload = leb_encode(es.len()) + encode_entries(es);
    seq![EXPORT_SECTION] + leb_encode(payload.len()) + payload
}

/// Every name is UTF-8 text whose length fits in 32 bits.
pub open spec fn entries_valid(es: Seq<ExportDecl>) -> bool {
    forall|i: int| 0 <= i < es.len() ==> valid_utf8(#[trigger] es[i].0) && es[i].0.len() < 0x1_0000_0000
}

/// The names of the function entries, in order.
pub open spec fn function_names(es: Seq<ExportDecl>) -> Seq<Seq<char>>
    decreases es.len(),
{
    if es.len() == 0 {
        seq![]
    } else {
        (if es[0].1 == FUNCTION_KIND { seq![decode_utf8(es[0].0)] } else { seq![] }) + function_names(es.drop_first())
    }
}

proof fn lemma_window(d: Seq<u8>, pos: int, w: Seq<u8>, a: int, b: int)
    requires
        0 <= pos,
        pos + w.len() <= d.len(),
        d.subrange(pos, pos + w.len()) == w,
        0 <= a <= b <= w.len(),
    ensures
        d.subrange(pos + a, pos + b) == w.subrange(a, b),
{
    assert forall|j: int| 0 <= j < b - a implies d.subrange(pos + a, pos + b)[j] == w.subrange(a, b)[j] by {
        assert(d.subrange(pos, pos + w.len())[a + j] == w[a + j]);
    }
    assert(d.subrange(pos + a, pos + b) =~= w.subrange(a, b));
}

proof fn lemma_entries_decode(d: Seq<u8>, pos: int, end: int, es: Seq<ExportDecl>, acc: Seq<Seq<char>>)
    requires
        0 <= pos,
        pos + encode_entries(es).len() <= end <= d.len(),
        d.subrange(pos, pos + encode_entries(es).len()) == encode_entries(es),
        entries_valid(es),
    ensures
        export_entries(d, pos, end, es.len(), acc) == Ok::<Seq<Seq<char>>, ErrorType>(acc + function_names(es)),
    decreases es.len(),
{
    if es.len() == 0 {
        assert(acc + function_names(es) =~= acc);
    } else {
        let e = es[0];
        let rest = es.drop_first();
        let whole = encode_entries(es);
        let n = e.0.len();
        let l1 = leb_encode(n).len() as int;
        let a2 = l1 + n;
        let a3 = a2 + 1;
        let a4 = a3 + leb_encode(e.2 as nat).len();
        assert(whole == encode_entry(e) + encode_entries(rest));
        assert(encode_entry(e).len() == a4);
        lemma_pow128_small(0);
        lemma_window(d, pos, whole, 0, l1);
        assert(whole.subrange(0, l1) =~= leb_encode(n));
        lemma_leb_encode_decodes(d, pos, end, 0, 0, n);
        lemma_window(d, pos, whole, l1, a2);
        assert(whole.subrange(l1, a2) =~= e.0);
        assert(valid_utf8(es[0].0));
        assert(bytes_at(d, pos + l1, end, n) == Ok::<(Seq<u8>, int), ErrorType>((e.0, pos + a2)));
        assert(name_at(d, pos, end) == Ok::<(Seq<char>, int), ErrorType>((decode_utf8(e.0), pos + a2)));
        assert(d[pos + a2] == d.subrange(pos, pos + whole.len())[a2]);
        assert(whole[a2] == e.1);
        assert(byte_at(d, pos + a2, end) == Ok::<(u8, int), ErrorType>((e.1, pos + a3)));
        lemma_window(d, pos, whole, a3, a4);
        assert(whole.subrange(a3, a4) =~= leb_encode(e.2 as nat));
        lemma_leb_encode_decodes(d, pos + a3, end, 0, 0, e.2 as nat);
        lemma_window(d, pos, whole, a4, whole.len() as int);
        assert(whole.subrange(a4, whole.len() as int) =~= encode_entries(rest));
        assert forall|i: int| 0 <= i < rest.len() implies valid_utf8(#[trigger] rest[i].0) && rest[i].0.len() < 0x1_0000_0000 by {
            assert(rest[i] == es[i + 1]);
        }
        let acc2 = if e.1 == FUNCTION_KIND { acc.push(decode_utf8(e.0)) } else { acc };
        lemma_entries_decode(d, pos + a4, end, rest, acc2);
        assert(acc2 + function_names(rest) =~= acc + function_names(es));
    }
}

proof fn lemma_export_section_decodes(d: Seq<u8>, k: int, es: Seq<ExportDecl>)
    requires
        0 <= k,
        k + encode_export_section(es).len() <= d.len(),
        d.subrange(k, k + encode_export_section(es).len()) == encode_export_section(es),
        entries_valid(es),
        es.len() < 0x1_0000_0000,
        leb_encode(es.len()).len() + encode_entries(es).len() < 0x1_0000_0000,
    ensures
        ({
            let payload = leb_encode(es.len()) + encode_entries(es);
            let p = k + 1 + leb_encode(payload.len()).len();
            &&& d[k] == EXPORT_SECTION
            &&& leb_u32(d, k + 1, d.len() as int) == Ok::<(nat, int), ErrorType>((payload.len(), p))
            &&& p + payload.len() == k + encode_export_section(es).len()
            &&& export_section(d, p, p + payload.len(), seq![]) == Ok::<Seq<Seq<char>>, ErrorType>(function_names(es))
        }),
{
    let x = encode_export_section(es);
    let payload = leb_encode(es.len()) + encode_entries(es);
    let lp = leb_encode(payload.len()).len() as int;
    let p = k + 1 + lp;
    let q = p + payload.len();
    lemma_pow128_small(0);
    assert(d[k] == d.subrange(k, k + x.len())[0]);
    lemma_window(d, k, x, 1, 1 + lp);
    assert(x.subrange(1, 1 + lp) =~= leb_encode(payload.len()));
    lemma_leb_encode_decodes(d, k + 1, d.len() as int, 0, 0, payload.len());
    lemma_window(d, k, x, 1 + lp, x.len() as int);
    assert(x.subrange(1 + lp, x.len() as int) =~= payload);
    let lc = leb_encode(es.len()).len() as int;
    lemma_window(d, p, payload, 0, lc);
    assert(payload.subrange(0, lc) =~= leb_encode(es.len()));
    lemma_leb_encode_decodes(d, p, q, 0, 0, es.len());
    lemma_window(d, p, payload, lc, payload.len() as int);
    assert(payload.subrange(lc, payload.len() as int) =~= encode_entries(es));
    lemma_entries_decode(d, p + lc, q, es, seq![]);
    assert(seq![] + function_names(es) =~= function_names(es));
}

/// A module made of a header and complete sections `m`, then an Export
/// section that encodes the entries `es`, then more complete sections that
/// export nothing, lists exactly the names of the function entries of `es`,
/// in the order in which they are declared.
pub proof fn lemma_exports_listed(m: Seq<u8>, es: Seq<ExportDecl>, t: Seq<u8>)
    requires
        has_header(m),
        sections_without_exports(m, 8),
        entries_valid(es),
        es.len() < 0x1_0000_0000,
        leb_encode(es.len()).len() + encode_entries(es).len() < 0x1_0000_0000,
        sections_without_exports(m + encode_export_section(es) + t, (m.len() + encode_export_section(es).len()) as int),
    ensures
        exported_functions(m + encode_export_section(es) + t) == Ok::<Seq<Seq<char>>, ErrorType>(function_names(es)),
{
    let x = encode_export_section(es);
    let d = m + x + t;
    let k = m.len() as int;
    assert(d =~= m + (x + t));
    assert(d.subrange(0, 8) =~= m.subrange(0, 8));
    lemma_sections_prefix(m, x + t, 8, seq![]);
    assert(d.subrange(k, k + x.len()) =~= x);
    lemma_export_section_decodes(d, k, es);
    lemma_sections_without_exports(d, k + x.len(), function_names(es));
}

} // verus!
