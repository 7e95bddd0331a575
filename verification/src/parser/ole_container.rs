//! The streams of an OLE object (a CFB compound file) that the renderer
//! uses: the EMF preview, the OOXML chart XML and the raw contents.

use std::io::Read;
use vstd::prelude::*;
use crate::emf::parser::{le32, read_le32};
use crate::scan::{push_range, matches_at};
use crate::text::{utf8_of, bytes_of};

verus! {

/// The streams found in an OLE container.
#[derive(Debug, Clone, Default)]
pub struct OleContainer {
    /// EMF bytes of the `\x02OlePres000` stream, without the OLE presentation header.
    pub preview_emf: Option<Vec<u8>>,
    /// The `OOXMLChartContents` stream (OOXML chart XML).
    pub ooxml_chart: Option<Vec<u8>>,
    /// The `Contents` stream.
    pub raw_contents: Option<Vec<u8>>,
}

pub open spec fn some_nonempty(b: Option<Vec<u8>>) -> bool {
    match b {
        Some(v) => v@.len() > 0,
        None => false,
    }
}

impl OleContainer {
    /// The container holds a non-empty OOXML chart.
    pub fn has_ooxml_chart(&self) -> (r: bool)
        ensures
            r == some_nonempty(self.ooxml_chart),
    {
        match &self.ooxml_chart {
            Some(b) => b.len() > 0,
            None => false,
        }
    }

    /// The container holds a non-empty EMF preview.
    pub fn has_preview(&self) -> (r: bool)
        ensures
            r == some_nonempty(self.preview_emf),
    {
        match &self.preview_emf {
            Some(b) => b.len() > 0,
            None => false,
        }
    }
}

/// `" EMF"`.
pub open spec fn emf_sig() -> Seq<u8> {
    seq![32u8, 69, 77, 70]
}

/// An `EMR_HEADER` starts at `i`: record type 1 and the `" EMF"` signature at `i + 40`.
pub open spec fn emf_header_at(d: Seq<u8>, i: int) -> bool {
    le32(d, i) == 1 && d.subrange(i + 40, i + 44) == emf_sig()
}

/// The first offset in `i..lim` at which an `EMR_HEADER` starts.
pub open spec fn first_emf_header(d: Seq<u8>, i: int, lim: int) -> Option<int>
    decreases lim - i,
{
    if i >= lim {
        None
    } else if emf_header_at(d, i) {
        Some(i)
    } else {
        first_emf_header(d, i + 1, lim)
    }
}

/// The bytes of an OLE presentation stream from its embedded `EMR_HEADER` on:
/// the header is searched among the first 4096 bytes (it must start at least
/// 44 bytes before that limit); streams under 64 bytes have none.
pub open spec fn spec_strip_presentation(d: Seq<u8>) -> Option<Seq<u8>> {
    if d.len() < 64 {
        None
    } else {
        let lim = if d.len() < 4096 { d.len() as int } else { 4096 };
        match first_emf_header(d, 0, lim - 44) {
            Some(i) => Some(d.subrange(i, d.len() as int)),
            None => None,
        }
    }
}

/// Skips the OLE presentation stream header: the metafile bytes from the
/// embedded `EMR_HEADER` on, or `None` when there is none.
pub fn strip_ole_presentation_header(data: &[u8]) -> (r: Option<Vec<u8>>)
    ensures
        match spec_strip_presentation(data@) {
            Some(v) => r matches Some(x) && x@ == v,
            None => r is None,
        },
{
    let n = data.len();
    if n < 64 {
        return None;
    }
    let scan_limit: usize = if n < 4096 { n } else { 4096 };
    let lim = scan_limit - 44;
    let mut i: usize = 0;
    while i < lim
        invariant
            n == data@.len(),
            n >= 64,
            lim + 44 <= n,
            i <= lim,
            lim == (if n < 4096 { n as int } else { 4096 }) - 44,
            first_emf_header(data@, 0, lim as int) == first_emf_header(data@, i as int, lim as int),
        decreases lim - i,
    {
        let t = read_le32(data, i);
        if t == 1 {
            let sig_ok = data[i + 40] == 32u8 && data[i + 41] == 69u8 && data[i + 42] == 77u8
                && data[i + 43] == 70u8;
            proof {
                let s = data@.subrange(i + 40, i + 44);
                assert(s[0] == data@[i + 40] && s[1] == data@[i + 41] && s[2] == data@[i + 42] && s[3]
                    == data@[i + 43]);
                if sig_ok {
                    assert(s =~= emf_sig());
                } else {
                    assert(s != emf_sig()) by {
                        if s == emf_sig() {
                            assert(s[0] == emf_sig()[0] && s[1] == emf_sig()[1] && s[2] == emf_sig()[2]
                                && s[3] == emf_sig()[3]);
                        }
                    }
                }
            }
            if sig_ok {
                let mut v: Vec<u8> = Vec::new();
                push_range(&mut v, data, i, n);
                assert(v@ =~= data@.subrange(i as int, n as int));
                assert(emf_header_at(data@, i as int));
                return Some(v);
            }
        }
        i = i + 1;
    }
    None
}

// ───────────────────────────── Reading the compound file ─────────────────────────────

/// The entries of the compound file `bytes` in the preorder walk of the
/// `cfb` crate, each as (path, is a stream); `None` when `cfb` cannot open it.
/// The paths are built with `PathBuf::join`, so below the root their
/// separator is that of the platform the library is built for: the list is a
/// function of the bytes within one build.
pub uninterp spec fn cfb_entry_list(bytes: Seq<u8>) -> Option<Seq<(Seq<char>, bool)>>;

/// The contents of the stream `path` of the compound file `bytes`; `None`
/// when the file cannot be opened, the stream cannot be opened, or reading fails.
pub uninterp spec fn cfb_stream_bytes(bytes: Seq<u8>, path: Seq<char>) -> Option<Seq<u8>>;

pub open spec fn entries_view(v: Seq<(String, bool)>) -> Seq<(Seq<char>, bool)> {
    v.map_values(|e: (String, bool)| (e.0@, e.1))
}

/// `cfb::CompoundFile::open` on the bytes, then its `walk()`, each entry taken
/// as its path (`to_string_lossy`) and `is_stream()`. The list is a function
/// of the bytes alone (for a given build: the path separator is the
/// platform's); its contents are left to the cfb crate.
#[verifier::external_body]
fn cfb_entries(bytes: &[u8]) -> (r: Option<Vec<(String, bool)>>)
    ensures
        match cfb_entry_list(bytes@) {
            Some(v) => r matches Some(x) && entries_view(x@) == v,
            None => r is None,
        },
{
    let comp = cfb::CompoundFile::open(std::io::Cursor::new(bytes)).ok()?;
    Some(comp.walk().map(|e| (e.path().to_string_lossy().to_string(), e.is_stream())).collect())
}

/// `cfb::CompoundFile::open` on the bytes, `open_stream(path)` and
/// `read_to_end`: the stream contents, or `None` where one of them fails. The
/// result is a function of the bytes and the path; it is left to the cfb crate.
#[verifier::external_body]
fn cfb_read_stream(bytes: &[u8], path: &str) -> (r: Option<Vec<u8>>)
    ensures
        match cfb_stream_bytes(bytes@, path@) {
            Some(v) => r matches Some(x) && x@ == v,
            None => r is None,
        },
{
    let mut comp = cfb::CompoundFile::open(std::io::Cursor::new(bytes)).ok()?;
    let mut s = comp.open_stream(path).ok()?;
    let mut buf = Vec::new();
    s.read_to_end(&mut buf).ok()?;
    Some(buf)
}

/// A path without its leading `/` characters.
pub open spec fn trim_slashes(s: Seq<u8>) -> Seq<u8>
    decreases s.len(),
{
    if s.len() > 0 && s[0] == 47 {
        trim_slashes(s.drop_first())
    } else {
        s
    }
}

/// `\u{2}OlePres000`.
pub open spec fn ole_pres_name() -> Seq<u8> {
    seq![2u8, 79, 108, 101, 80, 114, 101, 115, 48, 48, 48]
}

/// `OlePres000`.
pub open spec fn ole_pres_suffix() -> Seq<u8> {
    seq![79u8, 108, 101, 80, 114, 101, 115, 48, 48, 48]
}

/// `OOXMLChartContents`.
pub open spec fn chart_name() -> Seq<u8> {
    seq![79u8, 79, 88, 77, 76, 67, 104, 97, 114, 116, 67, 111, 110, 116, 101, 110, 116, 115]
}

/// `Contents`.
pub open spec fn contents_name() -> Seq<u8> {
    seq![67u8, 111, 110, 116, 101, 110, 116, 115]
}

pub open spec fn ends_with(s: Seq<u8>, t: Seq<u8>) -> bool {
    matches_at(s, s.len() - t.len(), t)
}

/// The streams kept so far: (preview, chart, contents).
pub type OleParts = (Option<Seq<u8>>, Option<Seq<u8>>, Option<Seq<u8>>);

/// The parts after the entry `e` of the compound file `bytes`: an
/// `OlePres000` stream gives the preview (its presentation header removed,
/// replacing what was there), `OOXMLChartContents` the chart and `Contents`
/// the raw contents (when read and not empty); other entries change nothing.
pub open spec fn ole_step(bytes: Seq<u8>, e: (Seq<char>, bool), parts: OleParts) -> OleParts {
    if !e.1 {
        parts
    } else {
        let name = trim_slashes(utf8_of(e.0));
        if name == ole_pres_name() || ends_with(name, ole_pres_suffix()) {
            match cfb_stream_bytes(bytes, e.0) {
                Some(buf) => (spec_strip_presentation(buf), parts.1, parts.2),
                None => parts,
            }
        } else if name == chart_name() {
            match cfb_stream_bytes(bytes, e.0) {
                Some(buf) => if buf.len() > 0 { (parts.0, Some(buf), parts.2) } else { parts },
                None => parts,
            }
        } else if name == contents_name() {
            match cfb_stream_bytes(bytes, e.0) {
                Some(buf) => if buf.len() > 0 { (parts.0, parts.1, Some(buf)) } else { parts },
                None => parts,
            }
        } else {
            parts
        }
    }
}

/// The parts after the first `k` entries.
pub open spec fn ole_parts(bytes: Seq<u8>, entries: Seq<(Seq<char>, bool)>, k: nat) -> OleParts
    decreases k,
{
    if k == 0 || k > entries.len() {
        (None, None, None)
    } else {
        ole_step(bytes, entries[k - 1], ole_parts(bytes, entries, (k - 1) as nat))
    }
}

/// The streams of the OLE object `bytes`: `None` for fewer than 8 bytes, for
/// bytes that the cfb crate cannot open, or when none of the streams is found.
pub open spec fn spec_ole_container(bytes: Seq<u8>) -> Option<OleParts> {
    if bytes.len() < 8 {
        None
    } else {
        match cfb_entry_list(bytes) {
            None => None,
            Some(entries) => {
                let parts = ole_parts(bytes, entries, entries.len());
                if parts.0 is Some || parts.1 is Some || parts.2 is Some {
                    Some(parts)
                } else {
                    None
                }
            },
        }
    }
}

pub open spec fn opt_view(o: Option<Vec<u8>>) -> Option<Seq<u8>> {
    match o {
        Some(v) => Some(v@),
        None => None,
    }
}

impl OleContainer {
    pub open spec fn parts(&self) -> OleParts {
        (opt_view(self.preview_emf), opt_view(self.ooxml_chart), opt_view(self.raw_contents))
    }
}

fn trim_slashes_exec(s: &[u8]) -> (r: usize)
    ensures
        r <= s@.len(),
        trim_slashes(s@) == s@.subrange(r as int, s@.len() as int),
{
    let mut i: usize = 0;
    assert(s@.subrange(0, s@.len() as int) =~= s@);
    while i < s.len() && s[i] == 47u8
        invariant
            i <= s@.len(),
            trim_slashes(s@) == trim_slashes(s@.subrange(i as int, s@.len() as int)),
        decreases s@.len() - i,
    {
        let ghost t = s@.subrange(i as int, s@.len() as int);
        assert(t.drop_first() =~= s@.subrange(i + 1, s@.len() as int));
        i = i + 1;
    }
    i
}

fn bytes_equal_at(s: &[u8], from: usize, t: &[u8]) -> (r: bool)
    requires
        from <= s@.len(),
    ensures
        r == (s@.subrange(from as int, s@.len() as int) == t@),
{
    if s.len() - from != t.len() {
        return false;
    }
    let r = crate::scan::match_at(s, from, t);
    proof {
        assert(r == (s@.subrange(from as int, s@.len() as int) =~= t@));
    }
    r
}

fn ends_with_exec(s: &[u8], from: usize, t: &[u8]) -> (r: bool)
    requires
        from <= s@.len(),
    ensures
        r == ends_with(s@.subrange(from as int, s@.len() as int), t@),
{
    let n = s.len();
    let ghost name = s@.subrange(from as int, n as int);
    if n - from < t.len() {
        return false;
    }
    let r = crate::scan::match_at(s, n - t.len(), t);
    proof {
        assert(name.subrange(name.len() - t@.len(), name.len() as int) =~= s@.subrange(n - t@.len(), n as int));
    }
    r
}

/// Extracts the streams that the renderer uses from an OLE object (a CFB
/// compound file): the EMF preview of `\u{2}OlePres000` (without its OLE
/// presentation header), `OOXMLChartContents` and `Contents`. `None` when the
/// bytes are too short, are not a compound file, or hold none of them.
pub fn parse_ole_container(cfb_bytes: &[u8]) -> (r: Option<OleContainer>)
    ensures
        match spec_ole_container(cfb_bytes@) {
            Some(parts) => r matches Some(c) && c.parts() == parts,
            None => r is None,
        },
{
    if cfb_bytes.len() < 8 {
        return None;
    }
    let entries = match cfb_entries(cfb_bytes) {
        None => {
            return None;
        },
        Some(e) => e,
    };
    let ghost ev = entries_view(entries@);
    let pres_name: Vec<u8> = vec![2u8, 79, 108, 101, 80, 114, 101, 115, 48, 48, 48];
    let pres_suffix: Vec<u8> = vec![79u8, 108, 101, 80, 114, 101, 115, 48, 48, 48];
    let chart: Vec<u8> = vec![79u8, 79, 88, 77, 76, 67, 104, 97, 114, 116, 67, 111, 110, 116, 101, 110, 116, 115];
    let contents: Vec<u8> = vec![67u8, 111, 110, 116, 101, 110, 116, 115];
    assert(pres_name@ =~= ole_pres_name());
    assert(pres_suffix@ =~= ole_pres_suffix());
    assert(chart@ =~= chart_name());
    assert(contents@ =~= contents_name());
    let mut container = OleContainer { preview_emf: None, ooxml_chart: None, raw_contents: None };
    let mut k: usize = 0;
    while k < entries.len()
        invariant
            k <= entries@.len(),
            ev == entries_view(entries@),
            pres_name@ == ole_pres_name(),
            pres_suffix@ == ole_pres_suffix(),
            chart@ == chart_name(),
            contents@ == contents_name(),
            container.parts() == ole_parts(cfb_bytes@, ev, k as nat),
        decreases entries@.len() - k,
    {
        let (path, is_stream) = (&entries[k].0, entries[k].1);
        assert(ev[k as int] == (path@, is_stream));
        if is_stream {
            let pb = bytes_of(path.as_str());
            let from = trim_slashes_exec(pb);
            let is_pres = bytes_equal_at(pb, from, pres_name.as_slice()) || ends_with_exec(pb, from, pres_suffix.as_slice());
            if is_pres {
                match cfb_read_stream(cfb_bytes, path.as_str()) {
                    Some(buf) => {
                        container.preview_emf = strip_ole_presentation_header(buf.as_slice());
                    },
                    None => {},
                }
            } else if bytes_equal_at(pb, from, chart.as_slice()) {
                match cfb_read_stream(cfb_bytes, path.as_str()) {
                    Some(buf) => {
                        if buf.len() > 0 {
                            container.ooxml_chart = Some(buf);
                        }
                    },
                    None => {},
                }
            } else if bytes_equal_at(pb, from, contents.as_slice()) {
                match cfb_read_stream(cfb_bytes, path.as_str()) {
                    Some(buf) => {
                        if buf.len() > 0 {
                            container.raw_contents = Some(buf);
                        }
                    },
                    None => {},
                }
            }
        }
        k = k + 1;
    }
    if container.preview_emf.is_some() || container.ooxml_chart.is_some() || container.raw_contents.is_some() {
        Some(container)
    } else {
        None
    }
}

// ───────────────────────────── Which stream lands where ─────────────────────────────

/// The entry `e` of the compound file `bytes` is a stream whose name (its
/// leading `/` left out) is `name` and whose contents are read and not empty.
pub open spec fn is_named_stream(bytes: Seq<u8>, e: (Seq<char>, bool), name: Seq<u8>) -> bool {
    &&& e.1
    &&& trim_slashes(utf8_of(e.0)) == name
    &&& cfb_stream_bytes(bytes, e.0) matches Some(b) && b.len() > 0
}

spec fn part_of(p: OleParts, c: int) -> Option<Seq<u8>> {
    if c == 1 {
        p.1
    } else {
        p.2
    }
}

spec fn part_name(c: int) -> Seq<u8> {
    if c == 1 {
        chart_name()
    } else {
        contents_name()
    }
}

proof fn lemma_names_differ()
    ensures
        chart_name() != ole_pres_name(),
        !ends_with(chart_name(), ole_pres_suffix()),
        contents_name() != ole_pres_name(),
        !ends_with(contents_name(), ole_pres_suffix()),
        contents_name() != chart_name(),
{
    assert(chart_name().len() != ole_pres_name().len());
    assert(contents_name().len() != ole_pres_name().len());
    assert(contents_name().len() != chart_name().len());
    assert(chart_name().subrange(8, 18)[0] != ole_pres_suffix()[0]);
}

proof fn lemma_ole_parts_by_name(bytes: Seq<u8>, es: Seq<(Seq<char>, bool)>, k: nat, c: int)
    requires
        k <= es.len(),
        c == 1 || c == 2,
    ensures
        part_of(ole_parts(bytes, es, k), c) matches Some(x) ==> exists|j: int| 0 <= j < k && is_named_stream(
            bytes,
            #[trigger] es[j],
            part_name(c),
        ) && cfb_stream_bytes(bytes, es[j].0) == Some(x),
        forall|j: int| 0 <= j < k && is_named_stream(bytes, #[trigger] es[j], part_name(c)) && (forall|j2: int|
            j < j2 < k ==> !is_named_stream(bytes, #[trigger] es[j2], part_name(c))) ==> part_of(
            ole_parts(bytes, es, k),
            c,
        ) == cfb_stream_bytes(bytes, es[j].0),
    decreases k,
{
    if k > 0 {
        let k1 = (k - 1) as nat;
        lemma_ole_parts_by_name(bytes, es, k1, c);
        lemma_names_differ();
        let e = es[k1 as int];
        let before = ole_parts(bytes, es, k1);
        let after = ole_parts(bytes, es, k);
        assert(after == ole_step(bytes, e, before));
        if is_named_stream(bytes, e, part_name(c)) {
            assert(part_of(after, c) == cfb_stream_bytes(bytes, e.0));
        } else {
            assert(part_of(after, c) == part_of(before, c));
            assert forall|j: int| 0 <= j < k && is_named_stream(bytes, #[trigger] es[j], part_name(c)) && (forall|j2: int|
                j < j2 < k ==> !is_named_stream(bytes, #[trigger] es[j2], part_name(c))) implies part_of(after, c)
                == cfb_stream_bytes(bytes, es[j].0) by {
                assert(j < k1);
            }
        }
    }
}

/// The entry `e` of the compound file `bytes` is a presentation stream
/// (`\x02OlePres000`, or a name ending in `OlePres000`) that can be read.
pub open spec fn is_presentation_stream(bytes: Seq<u8>, e: (Seq<char>, bool)) -> bool {
    let name = trim_slashes(utf8_of(e.0));
    &&& e.1
    &&& name == ole_pres_name() || ends_with(name, ole_pres_suffix())
    &&& cfb_stream_bytes(bytes, e.0) is Some
}

proof fn lemma_ole_parts_preview(bytes: Seq<u8>, es: Seq<(Seq<char>, bool)>, k: nat)
    requires
        k <= es.len(),
    ensures
        ole_parts(bytes, es, k).0 matches Some(x) ==> exists|j: int| 0 <= j < k && is_presentation_stream(
            bytes,
            #[trigger] es[j],
        ) && spec_strip_presentation(cfb_stream_bytes(bytes, es[j].0)->Some_0) == Some(x),
        forall|j: int| 0 <= j < k && is_presentation_stream(bytes, #[trigger] es[j]) && (forall|j2: int|
            j < j2 < k ==> !is_presentation_stream(bytes, #[trigger] es[j2])) ==> ole_parts(bytes, es, k).0
            == spec_strip_presentation(cfb_stream_bytes(bytes, es[j].0)->Some_0),
    decreases k,
{
    if k > 0 {
        let k1 = (k - 1) as nat;
        lemma_ole_parts_preview(bytes, es, k1);
        let e = es[k1 as int];
        let before = ole_parts(bytes, es, k1);
        let after = ole_parts(bytes, es, k);
        assert(after == ole_step(bytes, e, before));
        if !is_presentation_stream(bytes, e) {
            assert(after.0 == before.0);
            assert forall|j: int| 0 <= j < k && is_presentation_stream(bytes, #[trigger] es[j]) && (forall|j2: int|
                j < j2 < k ==> !is_presentation_stream(bytes, #[trigger] es[j2])) implies after.0
                == spec_strip_presentation(cfb_stream_bytes(bytes, es[j].0)->Some_0) by {
                assert(j < k1);
            }
        }
    }
}

/// The EMF preview of an OLE object comes from its presentation stream: the
/// last readable one gives it, with its presentation header removed, and
/// the preview is never anything but that of such a stream.
pub proof fn lemma_ole_preview_from_presentation(bytes: Seq<u8>)
    ensures
        spec_ole_container(bytes) matches Some(p) ==> {
            let es = cfb_entry_list(bytes)->Some_0;
            &&& forall|j: int| 0 <= j < es.len() && is_presentation_stream(bytes, #[trigger] es[j]) && (forall|
                j2: int,
            | j < j2 < es.len() ==> !is_presentation_stream(bytes, #[trigger] es[j2])) ==> p.0
                == spec_strip_presentation(cfb_stream_bytes(bytes, es[j].0)->Some_0)
            &&& p.0 matches Some(x) ==> exists|j: int| 0 <= j < es.len() && is_presentation_stream(
                bytes,
                #[trigger] es[j],
            ) && spec_strip_presentation(cfb_stream_bytes(bytes, es[j].0)->Some_0) == Some(x)
        },
{
    if bytes.len() >= 8 {
        if let Some(es) = cfb_entry_list(bytes) {
            lemma_ole_parts_preview(bytes, es, es.len());
        }
    }
}

/// The chart and the raw contents of an OLE object come from the streams of
/// those names: `ooxml_chart` holds the contents of the last non-empty stream
/// named `OOXMLChartContents`, `raw_contents` those of the last non-empty
/// stream named `Contents`, and neither holds anything that is not the
/// contents of a stream of its name.
pub proof fn lemma_ole_streams_by_name(bytes: Seq<u8>)
    ensures
        spec_ole_container(bytes) matches Some(p) ==> {
            let es = cfb_entry_list(bytes)->Some_0;
            &&& forall|j: int| 0 <= j < es.len() && is_named_stream(bytes, #[trigger] es[j], chart_name()) && (forall|
                j2: int,
            | j < j2 < es.len() ==> !is_named_stream(bytes, #[trigger] es[j2], chart_name())) ==> p.1
                == cfb_stream_bytes(bytes, es[j].0)
            &&& p.1 matches Some(x) ==> exists|j: int| 0 <= j < es.len() && is_named_stream(
                bytes,
                #[trigger] es[j],
                chart_name(),
            ) && cfb_stream_bytes(bytes, es[j].0) == Some(x)
            &&& forall|j: int| 0 <= j < es.len() && is_named_stream(bytes, #[trigger] es[j], contents_name()) && (forall|
                j2: int,
            | j < j2 < es.len() ==> !is_named_stream(bytes, #[trigger] es[j2], contents_name())) ==> p.2
                == cfb_stream_bytes(bytes, es[j].0)
            &&& p.2 matches Some(x) ==> exists|j: int| 0 <= j < es.len() && is_named_stream(
                bytes,
                #[trigger] es[j],
                contents_name(),
            ) && cfb_stream_bytes(bytes, es[j].0) == Some(x)
        },
        bytes.len() >= 8 ==> (cfb_entry_list(bytes) matches Some(es) && (exists|j: int| 0 <= j < es.len()
            && is_named_stream(bytes, #[trigger] es[j], chart_name()))) ==> spec_ole_container(bytes) is Some,
{
    if bytes.len() >= 8 {
        if let Some(es) = cfb_entry_list(bytes) {
            lemma_ole_parts_by_name(bytes, es, es.len(), 1);
            lemma_ole_parts_by_name(bytes, es, es.len(), 2);
            let p = ole_parts(bytes, es, es.len());
            if exists|j: int| 0 <= j < es.len() && is_named_stream(bytes, #[trigger] es[j], chart_name()) {
                let j0 = choose|j: int| 0 <= j < es.len() && is_named_stream(bytes, #[trigger] es[j], chart_name());
                lemma_last_named(bytes, es, j0);
            }
        }
    }
}

/// Among entries with one named stream at `j0`, the last one.
proof fn lemma_last_named(bytes: Seq<u8>, es: Seq<(Seq<char>, bool)>, j0: int)
    requires
        0 <= j0 < es.len(),
        is_named_stream(bytes, es[j0], chart_name()),
    ensures
        exists|j: int| 0 <= j < es.len() && is_named_stream(bytes, #[trigger] es[j], chart_name()) && (forall|j2: int|
            j < j2 < es.len() ==> !is_named_stream(bytes, #[trigger] es[j2], chart_name())),
    decreases es.len() - j0,
{
    if exists|j2: int| j0 < j2 < es.len() && is_named_stream(bytes, #[trigger] es[j2], chart_name()) {
        let j1 = choose|j2: int| j0 < j2 < es.len() && is_named_stream(bytes, #[trigger] es[j2], chart_name());
        lemma_last_named(bytes, es, j1);
    }
}

} // verus!
