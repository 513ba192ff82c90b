use vstd::prelude::*;
use crate::error::ErrorType;
use crate::reader::{byte_at, leb_u32, lemma_leb_from_bounds, lemma_pow128_small, name_at, Cursor};

verus! {

/// The section kind tag of the Export section.
pub const EXPORT_SECTION: u8 = 7;

/// The export kind tag of a function.
pub const FUNCTION_KIND: u8 = 0;

/// The first eight bytes of every module: `\0asm` and version 1.
pub open spec fn module_header() -> Seq<u8> {
    seq![0x00u8, 0x61u8, 0x73u8, 0x6du8, 0x01u8, 0x00u8, 0x00u8, 0x00u8]
}

/// The module starts with the expected magic bytes and version.
pub open spec fn has_header(d: Seq<u8>) -> bool {
    d.len() >= 8 && d.subrange(0, 8) == module_header()
}

/// The characters of each string.
pub open spec fn texts(v: Seq<String>) -> Seq<Seq<char>> {
    v.map_values(|s: String| s@)
}

/// A list of names, or the error, seen as values.
pub open spec fn names_result(r: Result<Vec<String>, ErrorType>) -> Result<Seq<Seq<char>>, ErrorType> {
    match r {
        Ok(v) => Ok(texts(v@)),
        Err(e) => Err(e),
    }
}

/// Inside the Export section, running out of bytes means a cut-short entry.
pub open spec fn in_export(e: ErrorType) -> ErrorType {
    if e == ErrorType::UnexpectedEnd {
        ErrorType::TruncatedExportEntry
    } else {
        e
    }
}

/// Inside a section header, running out of bytes means a cut-short section.
pub open spec fn in_section(e: ErrorType) -> ErrorType {
    if e == ErrorType::UnexpectedEnd {
        ErrorType::TruncatedSection
    } else {
        e
    }
}

/// The `k` export entries at `pos`: each a name, a kind byte and a LEB128
/// index. The names of function exports are appended to `acc`, in order.
pub open spec fn export_entries(d: Seq<u8>, pos: int, end: int, k: nat, acc: Seq<Seq<char>>) -> Result<Seq<Seq<char>>, ErrorType>
    decreases k,
{
    if k == 0 {
        Ok(acc)
    } else {
        match name_at(d, pos, end) {
            Err(e) => Err(in_export(e)),
            Ok((name, p)) => match byte_at(d, p, end) {
                Err(e) => Err(in_export(e)),
                Ok((kind, q)) => match leb_u32(d, q, end) {
                    Err(e) => Err(in_export(e)),
                    Ok((_index, s)) => export_entries(
                        d,
                        s,
                        end,
                        (k - 1) as nat,
                        if kind == FUNCTION_KIND { acc.push(name) } else { acc },
                    ),
                },
            },
        }
    }
}

/// The payload `[start, end)` of an Export section: a LEB128 count and that
/// many entries.
pub open spec fn export_section(d: Seq<u8>, start: int, end: int, acc: Seq<Seq<char>>) -> Result<Seq<Seq<char>>, ErrorType> {
    match leb_u32(d, start, end) {
        Err(e) => Err(in_export(e)),
        Ok((n, p)) => export_entries(d, p, end, n, acc),
    }
}

/// The section whose header starts at `pos`: its kind tag, and the start and
/// length of its payload, which must lie inside the module.
pub open spec fn section_at(d: Seq<u8>, pos: int) -> Result<(u8, int, nat), ErrorType> {
    match byte_at(d, pos, d.len() as int) {
        Err(e) => Err(in_section(e)),
        Ok((tag, p)) => match leb_u32(d, p, d.len() as int) {
            Err(e) => Err(in_section(e)),
            Ok((len, q)) => if len > d.len() - q {
                Err(ErrorType::TruncatedSection)
            } else {
                Ok((tag, q, len))
            },
        },
    }
}

/// The sections from `pos` to the end of the module. Export sections add
/// their function names to `acc`; every other section is skipped whole.
pub open spec fn sections(d: Seq<u8>, pos: int, acc: Seq<Seq<char>>) -> Result<Seq<Seq<char>>, ErrorType>
    decreases d.len() - pos,
{
    if pos >= d.len() {
        Ok(acc)
    } else {
        match section_at(d, pos) {
            Err(e) => Err(e),
            Ok((tag, start, len)) => {
                proof {
                    lemma_section_at_advances(d, pos);
                }
                if tag == EXPORT_SECTION {
                    match export_section(d, start, start + len, acc) {
                        Err(e) => Err(e),
                        Ok(names) => sections(d, start + len, names),
                    }
                } else {
                    sections(d, start + len, acc)
                }
            },
        }
    }
}

/// A section's payload lies after its header and inside the module.
pub proof fn lemma_section_at_advances(d: Seq<u8>, pos: int)
    ensures
        section_at(d, pos) matches Ok((_tag, start, len)) ==> pos + 2 <= start && start + len <= d.len(),
{
    lemma_pow128_small(0);
    lemma_leb_from_bounds(d, pos + 1, d.len() as int, 0, 0);
}

/// The names of a module's function exports, in the order of the module.
pub open spec fn exported_functions(d: Seq<u8>) -> Result<Seq<Seq<char>>, ErrorType> {
    if !has_header(d) {
        Err(ErrorType::BadHeader)
    } else {
        sections(d, 8, seq![])
    }
}

/// Maps a reader error met inside the Export section.
fn export_error(e: ErrorType) -> (r: ErrorType)
    ensures
        r == in_export(e),
{
    match e {
        ErrorType::UnexpectedEnd => ErrorType::TruncatedExportEntry,
        _ => e,
    }
}

/// Maps a reader error met inside a section header.
fn section_error(e: ErrorType) -> (r: ErrorType)
    ensures
        r == in_section(e),
{
    match e {
        ErrorType::UnexpectedEnd => ErrorType::TruncatedSection,
        _ => e,
    }
}

proof fn lemma_texts_push(v: Seq<String>, s: String)
    ensures
        texts(v.push(s)) == texts(v).push(s@),
{
    assert(texts(v.push(s)) =~= texts(v).push(s@));
}

/// Decodes the entries of the Export section in the window of `cur`, and
/// appends the names of the function exports to `out`.
pub fn read_export_section(data: &[u8], cur: Cursor, out: &mut Vec<String>) -> (r: Result<(), ErrorType>)
    requires
        cur.wf(data@),
    ensures
        match r {
            Ok(()) => export_section(data@, cur.pos as int, cur.end as int, texts(old(out)@))
                == Ok::<Seq<Seq<char>>, ErrorType>(texts(final(out)@)),
            Err(e) => export_section(data@, cur.pos as int, cur.end as int, texts(old(out)@))
                == Err::<Seq<Seq<char>>, ErrorType>(e),
        },
{
    let ghost d = data@;
    let ghost start = cur.pos as int;
    let ghost acc0 = texts(out@);
    let (count, mut c) = match cur.read_u32_leb128(data) {
        Ok(x) => x,
        Err(e) => return Err(export_error(e)),
    };
    let mut i: u32 = 0;
    while i < count
        invariant
            c.wf(d),
            d == data@,
            c.end == cur.end,
            start == cur.pos,
            acc0 == texts(old(out)@),
            i <= count,
            export_section(d, start, cur.end as int, acc0)
                == export_entries(d, c.pos as int, c.end as int, (count - i) as nat, texts(out@)),
        decreases count - i,
    {
        let (name, c1) = match c.read_name(data) {
            Ok(x) => x,
            Err(e) => return Err(export_error(e)),
        };
        let (kind, c2) = match c1.read_byte(data) {
            Ok(x) => x,
            Err(e) => return Err(export_error(e)),
        };
        let (_index, c3) = match c2.read_u32_leb128(data) {
            Ok(x) => x,
            Err(e) => return Err(export_error(e)),
        };
        if kind == FUNCTION_KIND {
            proof {
                lemma_texts_push(out@, name);
            }
            out.push(name);
        }
        c = c3;
        i = i + 1;
    }
    Ok(())
}

/// A section found by the walker: its kind tag and the byte range
/// `[start, start + len)` of its payload.
#[derive(Debug, Clone, Copy, PartialEq, Eq, Structural)]
pub struct Section {
    pub kind: u8,
    pub start: usize,
    pub len: usize,
}

/// Walks the sections of a module one by one, from just after its header.
#[derive(Debug, Clone, Copy, PartialEq, Eq, Structural)]
pub struct SectionWalker {
    pub pos: usize,
}

impl SectionWalker {
    /// Checks the header of a module and starts a walk just after it.
    pub fn new(data: &[u8]) -> (r: Result<SectionWalker, ErrorType>)
        ensures
            r is Ok <==> has_header(data@),
            r matches Ok(w) ==> w.pos == 8,
            r matches Err(e) ==> e == ErrorType::BadHeader,
    {
        let c = Cursor::new(data, 0, data.len());
        let h = match c.read_bytes(data, 8) {
            Ok((h, _)) => h,
            Err(_) => return Err(ErrorType::BadHeader),
        };
        if h[0] != 0x00 || h[1] != 0x61 || h[2] != 0x73 || h[3] != 0x6d || h[4] != 0x01 || h[5] != 0x00
            || h[6] != 0x00 || h[7] != 0x00 {
            return Err(ErrorType::BadHeader);
        }
        assert(h@ =~= module_header());
        Ok(SectionWalker { pos: 8 })
    }

    /// The next section, or `None` once the module is used up. The walker
    /// moves past the whole section, whatever its kind.
    pub fn next_section(&mut self, data: &[u8]) -> (r: Result<Option<Section>, ErrorType>)
        requires
            old(self).pos <= data@.len(),
        ensures
            old(self).pos >= data@.len() ==> r == Ok::<Option<Section>, ErrorType>(None) && final(self).pos == old(self).pos,
            old(self).pos < data@.len() ==> match section_at(data@, old(self).pos as int) {
                Err(e) => r == Err::<Option<Section>, ErrorType>(e),
                Ok((kind, start, len)) => r == Ok::<Option<Section>, ErrorType>(
                    Some(Section { kind, start: start as usize, len: len as usize }),
                ) && final(self).pos == start + len,
            },
            final(self).pos <= data@.len(),
    {
        if self.pos >= data.len() {
            return Ok(None);
        }
        let c = Cursor::new(data, self.pos, data.len());
        let (kind, c) = match c.read_byte(data) {
            Ok(x) => x,
            Err(e) => return Err(section_error(e)),
        };
        let (len, c) = match c.read_u32_leb128(data) {
            Ok(x) => x,
            Err(e) => return Err(section_error(e)),
        };
        let len = len as usize;
        if len > data.len() - c.pos {
            return Err(ErrorType::TruncatedSection);
        }
        self.pos = c.pos + len;
        Ok(Some(Section { kind, start: c.pos, len }))
    }
}

/// Lists the names of the functions that a module exports, in the order in
/// which its Export section declares them.
pub fn parse_module(data: &[u8]) -> (r: Result<Vec<String>, ErrorType>)
    ensures
        names_result(r) == exported_functions(data@),
{
    let mut walker = match SectionWalker::new(data) {
        Ok(w) => w,
        Err(e) => return Err(e),
    };
    let ghost d = data@;
    let mut out: Vec<String> = Vec::new();
    assert(texts(out@) =~= seq![]);
    loop
        invariant
            d == data@,
            walker.pos <= d.len(),
            exported_functions(d) == sections(d, walker.pos as int, texts(out@)),
        decreases d.len() - walker.pos,
    {
        let ghost pos = walker.pos as int;
        proof {
            lemma_section_at_advances(d, pos);
        }
        let section = match walker.next_section(data) {
            Ok(Some(s)) => s,
            Ok(None) => return Ok(out),
            Err(e) => return Err(e),
        };
        if section.kind == EXPORT_SECTION {
            let payload = Cursor::new(data, section.start, section.start + section.len);
            match read_export_section(data, payload, &mut out) {
                Ok(()) => {},
                Err(e) => return Err(e),
            }
        }
    }
}

} // verus!
