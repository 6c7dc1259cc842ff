//! Source mapping through DWARF: the debug sections of a module as `object`
//! reads them, an `addr2line` context over them, and the lookups that map a
//! byte offset in a function body, or a whole body, to source locations.
//!
//! Addresses are module-relative the way the toolchains emit them for
//! WebAssembly: an offset in the module bytes minus the start of the first
//! function body.

use std::sync::Arc;

use vstd::prelude::*;

use addr2line::Context;
use gimli::{EndianArcSlice, LittleEndian};
use object::{Object, ObjectSection};

use crate::hexdump::{find_function, find_index, lemma_find_index};
use crate::model::{opt_view, FunctionInfo, SourceLocation, SourceSpan, WasmModuleInfo, WatLine};
use crate::walk::{frames, walk_fuel, walk_module, walk_result, WalkOptions};
use crate::wasm_read::{
    body_extent, classify_payload, code_entry_extent, new_parser, parse_outcome, parse_step, parser_offset,
    parser_offset_at, payload_kind, ParseOutcome, PayloadKind, Section, Step, WalkParser,
};

verus! {

/// An `addr2line::Context` over DWARF sections held in shared byte slices.
///
/// The context is opaque: only the wrappers below touch it, and what a
/// lookup in it gives is named over the sections it was built from
/// (`dwarf_location`).
#[verifier::external_body]
pub struct LineContext {
    inner: Context<EndianArcSlice<LittleEndian>>,
}

/// Whether `object::File::parse` accepts the bytes as an object file.
pub uninterp spec fn object_parses(data: Seq<u8>) -> bool;

/// `object::File::parse(data).is_ok()`.
#[verifier::external_body]
fn object_file_parses(data: &[u8]) -> (b: bool)
    ensures
        b == object_parses(data@),
{
    object::File::parse(data).is_ok()
}

/// The contents of the section `name` of the object file in `data`, as the
/// `object` crate reads them: `None` when the bytes do not parse or have no
/// such section; else the decompressed data, or the raw data where
/// decompression fails, or no bytes where both fail.
pub uninterp spec fn object_section(data: Seq<u8>, name: Seq<char>) -> Option<Seq<u8>>;

/// `object::File::parse`, `Object::section_by_name`, then
/// `ObjectSection::uncompressed_data` (falling back to `ObjectSection::data`).
#[verifier::external_body]
fn object_section_bytes(data: &[u8], name: &str) -> (r: Option<Vec<u8>>)
    ensures
        match r {
            Some(v) => object_section(data@, name@) == Some(v@),
            None => object_section(data@, name@) is None,
        },
{
    let file = object::File::parse(data).ok()?;
    let section = file.section_by_name(name)?;
    Some(match section.uncompressed_data() {
        Ok(cow) => cow.into_owned(),
        Err(_) => section.data().map(|d| d.to_vec()).unwrap_or_default(),
    })
}

/// The DWARF sections that are read from a module, in lookup order.
pub open spec fn debug_section_names() -> Seq<Seq<char>> {
    seq![
        ".debug_abbrev"@, ".debug_info"@, ".debug_line"@, ".debug_str"@,
        ".debug_ranges"@, ".debug_rnglists"@, ".debug_str_offsets"@, ".debug_addr"@,
        ".debug_aranges"@, ".debug_line_str"@, ".debug_loclists"@, ".debug_loc"@,
        ".debug_types"@,
    ]
}

/// The `i`-th name of `debug_section_names`.
fn debug_section_name(i: usize) -> (s: &'static str)
    requires
        i < 13,
    ensures
        s@ == debug_section_names()[i as int],
{
    match i {
        0 => ".debug_abbrev",
        1 => ".debug_info",
        2 => ".debug_line",
        3 => ".debug_str",
        4 => ".debug_ranges",
        5 => ".debug_rnglists",
        6 => ".debug_str_offsets",
        7 => ".debug_addr",
        8 => ".debug_aranges",
        9 => ".debug_line_str",
        10 => ".debug_loclists",
        11 => ".debug_loc",
        _ => ".debug_types",
    }
}

/// The named sections of `data` that exist and are not empty, in the order
/// of `names`.
pub open spec fn collected_sections(data: Seq<u8>, names: Seq<Seq<char>>) -> Seq<(Seq<char>, Seq<u8>)>
    decreases names.len(),
{
    if names.len() == 0 {
        Seq::empty()
    } else {
        let prev = collected_sections(data, names.drop_last());
        match object_section(data, names.last()) {
            Some(d) => if d.len() > 0 { prev.push((names.last(), d)) } else { prev },
            None => prev,
        }
    }
}

/// The DWARF sections of a module: name and contents of each present one.
pub struct DebugSections {
    entries: Vec<(String, Vec<u8>)>,
}

impl View for DebugSections {
    type V = Seq<(Seq<char>, Seq<u8>)>;

    closed spec fn view(&self) -> Seq<(Seq<char>, Seq<u8>)> {
        self.entries@.map_values(|e: (String, Vec<u8>)| (e.0@, e.1@))
    }
}

/// The contents of the first section called `name`, or no bytes.
pub open spec fn section_data(secs: Seq<(Seq<char>, Seq<u8>)>, name: Seq<char>) -> Seq<u8>
    decreases secs.len(),
{
    if secs.len() == 0 {
        Seq::empty()
    } else if secs[0].0 == name {
        secs[0].1
    } else {
        section_data(secs.drop_first(), name)
    }
}

impl DebugSections {
    /// Reads the DWARF sections of `data`.
    pub fn read(data: &[u8]) -> (r: DebugSections)
        ensures
            r@ == collected_sections(data@, debug_section_names()),
    {
        let mut entries: Vec<(String, Vec<u8>)> = Vec::new();
        let mut i: usize = 0;
        while i < 13
            invariant
                i <= 13,
                entries@.map_values(|e: (String, Vec<u8>)| (e.0@, e.1@))
                    == collected_sections(data@, debug_section_names().take(i as int)),
            decreases 13 - i,
        {
            let name = debug_section_name(i);
            proof {
                assert(debug_section_names().take(i + 1).drop_last() =~= debug_section_names().take(i as int));
            }
            let ghost before = entries@;
            match object_section_bytes(data, name) {
                Some(d) => {
                    if d.len() > 0 {
                        entries.push((name.to_owned(), d));
                        proof {
                            assert(entries@.map_values(|e: (String, Vec<u8>)| (e.0@, e.1@))
                                =~= before.map_values(|e: (String, Vec<u8>)| (e.0@, e.1@)).push(
                                    (entries@.last().0@, entries@.last().1@)));
                        }
                    }
                },
                None => {},
            }
            i = i + 1;
        }
        proof {
            assert(debug_section_names().take(13) =~= debug_section_names());
        }
        DebugSections { entries }
    }

    /// The contents of the section `name` (no bytes when absent).
    pub fn lookup(&self, name: &str) -> (r: &[u8])
        ensures
            r@ == section_data(self@, name@),
    {
        let key = name.to_owned();
        let mut i: usize = 0;
        proof {
            assert(self@.skip(0) =~= self@);
        }
        while i < self.entries.len()
            invariant
                i <= self.entries.len(),
                key@ == name@,
                self@.len() == self.entries@.len(),
                section_data(self@, name@) == section_data(self@.skip(i as int), name@),
            decreases self.entries.len() - i,
        {
            proof {
                assert(self@.skip(i as int).drop_first() =~= self@.skip(i + 1));
                assert(self@.skip(i as int)[0] == self@[i as int]);
                assert(self@[i as int] == (self.entries@[i as int].0@, self.entries@[i as int].1@));
            }
            if self.entries[i].0 == key {
                return self.entries[i].1.as_slice();
            }
            i = i + 1;
        }
        &[]
    }
}

/// Whether `gimli::Dwarf::load` over these sections (absent ones empty)
/// followed by `addr2line::Context::from_dwarf` succeeds.
pub uninterp spec fn dwarf_context_builds(sections: Seq<(Seq<char>, Seq<u8>)>) -> bool;

/// Loads a `gimli::Dwarf` whose sections are read from `sections`, each
/// copied into a shared slice, and builds an `addr2line::Context` over it.
#[verifier::external_body]
fn build_line_context(sections: &DebugSections) -> (r: Option<LineContext>)
    ensures
        r is Some <==> dwarf_context_builds(sections@),
{
    let dwarf = gimli::Dwarf::load(|id: gimli::SectionId| {
        Ok::<_, gimli::Error>(EndianArcSlice::new(Arc::from(sections.lookup(id.name())), LittleEndian))
    }).ok()?;
    Some(LineContext { inner: Context::from_dwarf(dwarf).ok()? })
}

/// A location as `addr2line` reports it: file, line and column, each optional.
pub type LocationView = (Option<Seq<char>>, Option<u32>, Option<u32>);

/// What `addr2line::Context::find_location` answers for `probe` on the
/// context built over `sections`: `None` for an error, `Some(None)` when no
/// location covers the address, else the location.
pub uninterp spec fn dwarf_location(sections: Seq<(Seq<char>, Seq<u8>)>, probe: u64) -> Option<Option<LocationView>>;

/// A location found in the line tables.
pub struct RawLocation {
    pub file: Option<String>,
    pub line: Option<u32>,
    pub column: Option<u32>,
}

impl View for RawLocation {
    type V = LocationView;

    open spec fn view(&self) -> LocationView {
        (opt_view(self.file), self.line, self.column)
    }
}

/// The outcome of one lookup.
pub enum Lookup {
    Found(RawLocation),
    Missing,
    Failed,
}

impl View for Lookup {
    type V = Option<Option<LocationView>>;

    open spec fn view(&self) -> Option<Option<LocationView>> {
        match self {
            Lookup::Found(l) => Some(Some(l@)),
            Lookup::Missing => Some(None),
            Lookup::Failed => None,
        }
    }
}

/// A DWARF line context for a module, with the start offset of the module's
/// first function body, which addresses are relative to.
pub struct DwarfCtx {
    ctx: LineContext,
    first_body_start: usize,
    sections: Ghost<Seq<(Seq<char>, Seq<u8>)>>,
}

impl DwarfCtx {
    /// The debug sections the context was built over.
    pub closed spec fn debug_sections(self) -> Seq<(Seq<char>, Seq<u8>)> {
        self.sections@
    }

    /// The start offset of the first function body.
    pub closed spec fn body_base(self) -> usize {
        self.first_body_start
    }

    /// The start offset of the first function body.
    pub fn first_body_start(&self) -> (r: usize)
        ensures
            r == self.body_base(),
    {
        self.first_body_start
    }
}

/// `addr2line::Context::find_location(probe)`, with the file name copied.
/// The context of `dc` is only ever built over `dc.debug_sections()`.
#[verifier::external_body]
fn find_location(dc: &DwarfCtx, probe: u64) -> (r: Lookup)
    ensures
        r@ == dwarf_location(dc.debug_sections(), probe),
{
    match dc.ctx.inner.find_location(probe) {
        Ok(Some(loc)) => Lookup::Found(RawLocation {
            file: loc.file.map(|f| f.to_string()),
            line: loc.line,
            column: loc.column,
        }),
        Ok(None) => Lookup::Missing,
        Err(_) => Lookup::Failed,
    }
}

/// One step of the search for the first function body: the body's start,
/// a stop (an error, or the end of the outermost parser), or the next
/// resume points, parser origin and step.
pub enum FirstStep {
    Found(usize),
    Stop,
    Next(Seq<(Seq<nat>, nat)>, Seq<nat>, nat),
}

/// One step of the search for the first function body of `d` (payloads
/// walked as `walk_step` walks them).
pub open spec fn first_step(d: Seq<u8>, stack: Seq<(Seq<nat>, nat)>, o: Seq<nat>, k: nat) -> FirstStep {
    if parser_offset_at(d, o, k) > d.len() {
        FirstStep::Stop
    } else {
        match parse_outcome(d, o, k) {
            ParseOutcome::Parsed(_) => match payload_kind(d, o, k) {
                PayloadKind::CodeEntry => FirstStep::Found(code_entry_extent(d, o, k).0),
                PayloadKind::Nested => FirstStep::Next(stack.push((o, k + 1)), o.push(k), 0),
                PayloadKind::End => if stack.len() == 0 {
                    FirstStep::Stop
                } else {
                    FirstStep::Next(stack.drop_last(), stack.last().0, stack.last().1)
                },
                _ => FirstStep::Next(stack, o, k + 1),
            },
            _ => FirstStep::Stop,
        }
    }
}

/// The start of the first function body found from the given point within
/// `fuel` steps, or 0.
pub open spec fn first_start_from(d: Seq<u8>, stack: Seq<(Seq<nat>, nat)>, o: Seq<nat>, k: nat, fuel: nat) -> usize
    decreases fuel,
{
    if fuel == 0 {
        0
    } else {
        match first_step(d, stack, o, k) {
            FirstStep::Found(s) => s,
            FirstStep::Stop => 0,
            FirstStep::Next(st, o2, k2) => first_start_from(d, st, o2, k2, (fuel - 1) as nat),
        }
    }
}

/// The start of the first function body met by the payload walk of `d`, or
/// 0 when the walk meets none before an error or the end.
pub open spec fn first_code_start(d: Seq<u8>) -> usize {
    first_start_from(d, Seq::empty(), Seq::empty(), 0, walk_fuel(d.len()))
}

/// The start of the first function body met by the payload walk of `data`,
/// or 0 when the walk meets none before an error or the end.
fn first_code_entry_start(data: &[u8]) -> (r: usize)
    ensures
        r == first_code_start(data@),
{
    let mut cur: WalkParser = new_parser(data);
    let mut stack: Vec<WalkParser> = Vec::new();
    let mut fuel: u128 = 2 * (data.len() as u128) + 4;
    proof {
        assert(frames(stack@) =~= Seq::<(Seq<nat>, nat)>::empty());
    }
    loop
        invariant
            cur.data() == data@,
            forall|i: int| 0 <= i < stack@.len() ==> (#[trigger] stack@[i]).data() == data@,
            first_code_start(data@) == first_start_from(data@, frames(stack@), cur.origin(), cur.steps(), fuel as nat),
        decreases fuel,
    {
        let ghost (st, o, k) = (frames(stack@), cur.origin(), cur.steps());
        if fuel == 0 {
            return 0;
        }
        let off = parser_offset(&cur);
        if off > data.len() as u64 {
            return 0;
        }
        let (consumed, payload) = match parse_step(&mut cur, data, off as usize) {
            Ok(Step::Parsed(n, p)) => (n, p),
            _ => { return 0; },
        };
        fuel = fuel - 1;
        match classify_payload(payload, consumed) {
            Section::CodeEntry(entry) => {
                let (start, _end, _len) = body_extent(&entry);
                return start;
            },
            Section::Nested(p) => {
                stack.push(cur);
                cur = p;
                proof {
                    assert(frames(stack@) =~= st.push((o, k + 1)));
                }
            },
            Section::End => {
                match stack.pop() {
                    Some(p) => {
                        cur = p;
                        proof {
                            assert(frames(stack@) =~= st.drop_last());
                        }
                    },
                    None => { return 0; },
                }
            },
            _ => {},
        }
    }
}

/// Builds the DWARF line context of a module: its debug sections as
/// `object` reads them and the start of its first function body. `None`
/// when the bytes are no object file `object` accepts, or the context cannot
/// be built.
pub fn init_dwarf_context(wasm_bytes: &[u8]) -> (r: Option<DwarfCtx>)
    ensures
        r is Some <==> object_parses(wasm_bytes@)
            && dwarf_context_builds(collected_sections(wasm_bytes@, debug_section_names())),
        r matches Some(dc) ==> dc.debug_sections() == collected_sections(wasm_bytes@, debug_section_names()),
        r matches Some(dc) ==> dc.body_base() == first_code_start(wasm_bytes@),
{
    if !object_file_parses(wasm_bytes) {
        return None;
    }
    let sections = DebugSections::read(wasm_bytes);
    let ctx = build_line_context(&sections)?;
    let first_body_start = first_code_entry_start(wasm_bytes);
    Some(DwarfCtx { ctx, first_body_start, sections: Ghost(sections@) })
}

/// The location found at `addr`, if the lookup finds one.
pub open spec fn found_at(secs: Seq<(Seq<char>, Seq<u8>)>, addr: int) -> Option<LocationView> {
    match dwarf_location(secs, addr as u64) {
        Some(Some(l)) => Some(l),
        _ => None,
    }
}

/// The first location found at `base + delta`, `base + delta + 1`, ...,
/// below `base + 4096`.
pub open spec fn probe_window(secs: Seq<(Seq<char>, Seq<u8>)>, base: nat, delta: nat) -> Option<LocationView>
    decreases 4096 - delta,
{
    if delta >= 4096 {
        None
    } else {
        match found_at(secs, (base + delta) as int) {
            Some(l) => Some(l),
            None => probe_window(secs, base, delta + 1),
        }
    }
}

/// The location of `base + offset`, or else the first one found in the
/// 4096 addresses from `base` on.
pub open spec fn mapped_location(secs: Seq<(Seq<char>, Seq<u8>)>, base: nat, offset: nat) -> Option<LocationView> {
    match found_at(secs, (base + offset) as int) {
        Some(l) => Some(l),
        None => probe_window(secs, base, 0),
    }
}

/// A found location as a source location: an unknown file is
/// `<unknown>`, an unknown line or column 0.
pub open spec fn source_view(l: LocationView) -> (Seq<char>, u32, u32) {
    (
        match l.0 { Some(f) => f, None => "<unknown>"@ },
        match l.1 { Some(x) => x, None => 0 },
        match l.2 { Some(x) => x, None => 0 },
    )
}

/// The view of a source location.
pub open spec fn location_view(l: SourceLocation) -> (Seq<char>, u32, u32) {
    (l.file@, l.line, l.column)
}

/// The view of an optional source location.
pub open spec fn opt_location_view(r: Option<SourceLocation>) -> Option<(Seq<char>, u32, u32)> {
    match r {
        Some(l) => Some(location_view(l)),
        None => None,
    }
}

/// `a.saturating_sub(b)`.
pub open spec fn sat_sub(a: usize, b: usize) -> nat {
    if a >= b { (a - b) as nat } else { 0 }
}

/// Looks up `base + offset`, then the 4096 addresses from `base` on.
fn locate(dc: &DwarfCtx, base: usize, offset: usize) -> (r: Option<RawLocation>)
    requires
        base + offset <= usize::MAX,
        base + 4095 <= usize::MAX,
    ensures
        match r {
            Some(l) => mapped_location(dc.debug_sections(), base as nat, offset as nat) == Some(l@),
            None => mapped_location(dc.debug_sections(), base as nat, offset as nat) is None,
        },
{
    let ghost secs = dc.debug_sections();
    match find_location(dc, (base + offset) as u64) {
        Lookup::Found(l) => { return Some(l); },
        _ => {},
    }
    let mut delta: usize = 0;
    while delta < 4096
        invariant
            delta <= 4096,
            base + 4095 <= usize::MAX,
            secs == dc.debug_sections(),
            found_at(secs, (base + offset) as int) is None,
            probe_window(secs, base as nat, 0) == probe_window(secs, base as nat, delta as nat),
        decreases 4096 - delta,
    {
        match find_location(dc, (base + delta) as u64) {
            Lookup::Found(l) => { return Some(l); },
            _ => {},
        }
        delta = delta + 1;
    }
    None
}

/// The source location of a raw location.
fn to_source_location(l: RawLocation) -> (r: SourceLocation)
    ensures
        location_view(r) == source_view(l@),
{
    let file = match l.file {
        Some(f) => f,
        None => "<unknown>".to_owned(),
    };
    let line = match l.line { Some(x) => x, None => 0 };
    let column = match l.column { Some(x) => x, None => 0 };
    SourceLocation { file, line, column }
}

/// The source location of `body_offset` in the body that starts at
/// `body_start`: the address is the body start relative to the first body
/// (saturating at 0) plus the offset.
pub open spec fn body_offset_source(secs: Seq<(Seq<char>, Seq<u8>)>, first: usize, body_start: usize, body_offset: usize) -> Option<(Seq<char>, u32, u32)> {
    match mapped_location(secs, sat_sub(body_start, first), body_offset as nat) {
        Some(l) => Some(source_view(l)),
        None => None,
    }
}

/// Maps an offset in the function body that starts at `body_start` to a
/// source location.
pub fn map_body_offset_to_source(dc: &DwarfCtx, body_start: usize, body_offset: usize) -> (r: Option<SourceLocation>)
    requires
        body_start + body_offset <= usize::MAX,
        body_start + 4095 <= usize::MAX,
    ensures
        match r {
            Some(loc) => body_offset_source(dc.debug_sections(), dc.body_base(), body_start, body_offset) == Some(location_view(loc)),
            None => body_offset_source(dc.debug_sections(), dc.body_base(), body_start, body_offset) is None,
        },
{
    let first = dc.first_body_start();
    let base = if body_start >= first { body_start - first } else { 0 };
    match locate(dc, base, body_offset) {
        Some(l) => Some(to_source_location(l)),
        None => None,
    }
}

/// Whether function `k` has a body range in `fs` (at its first entry).
pub open spec fn has_body_range(fs: Seq<FunctionInfo>, k: u32) -> bool {
    match find_index(fs, k) {
        Some(i) => fs[i].body_range is Some,
        None => false,
    }
}

/// The addresses probed for offset `off` in the body of function `k` fit in
/// `usize`.
pub open spec fn offsets_fit(fs: Seq<FunctionInfo>, k: u32, off: usize) -> bool {
    match find_index(fs, k) {
        Some(i) => match fs[i].body_range {
            Some(rg) => rg.start + off <= usize::MAX && rg.start + 4095 <= usize::MAX,
            None => true,
        },
        None => true,
    }
}

/// The source location of offset `off` in the body of function `k`, found
/// through its recorded body range.
pub open spec fn instr_source(secs: Seq<(Seq<char>, Seq<u8>)>, first: usize, fs: Seq<FunctionInfo>, k: u32, off: usize) -> Option<(Seq<char>, u32, u32)> {
    match find_index(fs, k) {
        Some(i) => match fs[i].body_range {
            Some(rg) => body_offset_source(secs, first, rg.start, off),
            None => None,
        },
        None => None,
    }
}

/// Maps an operator offset within the body of function `func_index` to a
/// source location, using the body range recorded in `module`.
pub fn map_instr_to_source_in(dc: &DwarfCtx, module: &WasmModuleInfo, func_index: u32, body_offset: usize) -> (r: Option<SourceLocation>)
    requires
        offsets_fit(module.functions@, func_index, body_offset),
    ensures
        match r {
            Some(loc) => instr_source(dc.debug_sections(), dc.body_base(), module.functions@, func_index, body_offset) == Some(location_view(loc)),
            None => instr_source(dc.debug_sections(), dc.body_base(), module.functions@, func_index, body_offset) is None,
        },
{
    proof {
        lemma_find_index(module.functions@, func_index);
    }
    let i = find_function(&module.functions, func_index)?;
    match &module.functions[i].body_range {
        Some(range) => map_body_offset_to_source(dc, range.start, body_offset),
        None => None,
    }
}

/// Whether the addresses probed for offset `off` in the body of function
/// `k` fit in `usize`.
pub fn probes_fit(module: &WasmModuleInfo, k: u32, off: usize) -> (b: bool)
    ensures
        b == offsets_fit(module.functions@, k, off),
{
    proof {
        lemma_find_index(module.functions@, k);
    }
    match find_function(&module.functions, k) {
        Some(i) => match &module.functions[i].body_range {
            Some(rg) => rg.start <= usize::MAX - off && rg.start <= usize::MAX - 4095,
            None => true,
        },
        None => true,
    }
}

/// The source location of one disassembly line of function `k`: the
/// mapping of its offset through the context, `None` without a context or
/// where the probed addresses would not fit in `usize`.
pub open spec fn line_source(dc: Option<&DwarfCtx>, fs: Seq<FunctionInfo>, k: u32, off: usize) -> Option<(Seq<char>, u32, u32)> {
    match dc {
        Some(d) => if offsets_fit(fs, k, off) { instr_source(d.debug_sections(), d.body_base(), fs, k, off) } else { None },
        None => None,
    }
}

/// The source location of each disassembly line of function `func_index`
/// (see `line_source`), in line order.
pub fn line_source_mappings(dc: Option<&DwarfCtx>, module: &WasmModuleInfo, func_index: u32, lines: &Vec<WatLine>) -> (r: Vec<Option<SourceLocation>>)
    ensures
        r@.len() == lines@.len(),
        forall|i: int| 0 <= i < lines@.len() ==>
            opt_location_view(#[trigger] r@[i]) == line_source(dc, module.functions@, func_index, lines@[i].offset),
{
    let mut out: Vec<Option<SourceLocation>> = Vec::new();
    let mut i: usize = 0;
    while i < lines.len()
        invariant
            i <= lines@.len(),
            out@.len() == i,
            forall|j: int| 0 <= j < i ==>
                opt_location_view(#[trigger] out@[j]) == line_source(dc, module.functions@, func_index, lines@[j].offset),
        decreases lines.len() - i,
    {
        let off = lines[i].offset;
        let m = match dc {
            Some(d) => if probes_fit(module, func_index, off) {
                map_instr_to_source_in(d, module, func_index, off)
            } else {
                None
            },
            None => None,
        };
        out.push(m);
        i = i + 1;
    }
    out
}

/// Fast mapping helper that avoids scanning the entire wasm by using the
/// precomputed body ranges of `module`; the DWARF context of `wasm_bytes` is
/// built for the lookup (`map_instr_to_source_in` reuses one).
pub fn map_instr_to_source_fast(module: &WasmModuleInfo, wasm_bytes: &[u8], func_index: u32, body_offset: usize) -> (r: Option<SourceLocation>)
    requires
        offsets_fit(module.functions@, func_index, body_offset),
    ensures
        !(has_body_range(module.functions@, func_index) && object_parses(wasm_bytes@)
            && dwarf_context_builds(collected_sections(wasm_bytes@, debug_section_names()))) ==> r is None,
        has_body_range(module.functions@, func_index) && object_parses(wasm_bytes@)
            && dwarf_context_builds(collected_sections(wasm_bytes@, debug_section_names())) ==>
            instr_source(collected_sections(wasm_bytes@, debug_section_names()), first_code_start(wasm_bytes@),
                module.functions@, func_index, body_offset) == opt_location_view(r),
{
    proof {
        lemma_find_index(module.functions@, func_index);
    }
    let i = find_function(&module.functions, func_index)?;
    if module.functions[i].body_range.is_none() {
        return None;
    }
    let dc = init_dwarf_context(wasm_bytes)?;
    let r = map_instr_to_source_in(&dc, module, func_index, body_offset);
    r
}

/// Maps a disassembly line (carrying its body-relative offset) to a source
/// location.
pub fn map_wat_line_to_source_cached(module: &WasmModuleInfo, wasm_bytes: &[u8], func_index: u32, wl: &WatLine) -> (r: Option<SourceLocation>)
    requires
        offsets_fit(module.functions@, func_index, wl.offset),
    ensures
        !(has_body_range(module.functions@, func_index) && object_parses(wasm_bytes@)
            && dwarf_context_builds(collected_sections(wasm_bytes@, debug_section_names()))) ==> r is None,
        has_body_range(module.functions@, func_index) && object_parses(wasm_bytes@)
            && dwarf_context_builds(collected_sections(wasm_bytes@, debug_section_names())) ==>
            instr_source(collected_sections(wasm_bytes@, debug_section_names()), first_code_start(wasm_bytes@),
                module.functions@, func_index, wl.offset) == opt_location_view(r),
{
    map_instr_to_source_fast(module, wasm_bytes, func_index, wl.offset)
}

/// The body range (start, end) of the defined function with global index
/// `t` in `d`, as the payload walk finds it; `None` when the walk fails or
/// meets no such function.
pub open spec fn target_body(d: Seq<u8>, t: u32) -> Option<(usize, usize)> {
    match walk_result(d, false, false, false, Some(t)) {
        Some((_, f)) => f,
        None => None,
    }
}

/// The body extent (start, end) of the defined function with global index
/// `func_index`, as the payload walk finds it.
fn function_body_extent(wasm_bytes: &[u8], func_index: u32) -> (r: Option<(usize, usize)>)
    ensures
        r == target_body(wasm_bytes@, func_index),
        r matches Some((s, e)) ==> s <= e <= wasm_bytes@.len(),
{
    let opts = WalkOptions { exports: false, names: false, calls: false, target: Some(func_index) };
    match walk_module(wasm_bytes, &opts) {
        Ok((_scan, Some((start, end)))) => Some((start, end)),
        _ => None,
    }
}

/// The source location of offset `off` in the body that the walk finds
/// for function `t`: the lookup at the body start relative to the first
/// body plus the offset; `None` when there is no such body or the probed
/// addresses would not fit in `usize`.
pub open spec fn walked_instr_source(secs: Seq<(Seq<char>, Seq<u8>)>, first: usize, d: Seq<u8>, t: u32, off: usize) -> Option<(Seq<char>, u32, u32)> {
    match target_body(d, t) {
        Some((s, _)) => if s + off <= usize::MAX && s + 4095 <= usize::MAX {
            body_offset_source(secs, first, s, off)
        } else {
            None
        },
        None => None,
    }
}

/// Maps a global function index and an operator offset within its body to a
/// source location, locating the body by walking the module.
pub fn map_instr_to_source(wasm_bytes: &[u8], func_index: u32, body_offset: usize) -> (r: Option<SourceLocation>)
    ensures
        !(object_parses(wasm_bytes@) && dwarf_context_builds(collected_sections(wasm_bytes@, debug_section_names())))
            ==> r is None,
        object_parses(wasm_bytes@) && dwarf_context_builds(collected_sections(wasm_bytes@, debug_section_names())) ==>
            opt_location_view(r) == walked_instr_source(collected_sections(wasm_bytes@, debug_section_names()),
                first_code_start(wasm_bytes@), wasm_bytes@, func_index, body_offset),
{
    let dc = init_dwarf_context(wasm_bytes)?;
    map_instr_to_source_with(&dc, wasm_bytes, func_index, body_offset)
}

/// `map_instr_to_source` with a context built beforehand. Addresses that do
/// not fit in `usize` map to nothing.
pub fn map_instr_to_source_with(dc: &DwarfCtx, wasm_bytes: &[u8], func_index: u32, body_offset: usize) -> (r: Option<SourceLocation>)
    ensures
        opt_location_view(r) == walked_instr_source(dc.debug_sections(), dc.body_base(), wasm_bytes@, func_index, body_offset),
{
    let (start, _end) = function_body_extent(wasm_bytes, func_index)?;
    if start > usize::MAX - body_offset || start > usize::MAX - 4095 {
        return None;
    }
    map_body_offset_to_source(dc, start, body_offset)
}

/// The locations found at `base`, `base + 4`, ..., `base + 4 * (j - 1)`, in
/// that order (addresses without a location contribute nothing).
pub open spec fn span_samples(secs: Seq<(Seq<char>, Seq<u8>)>, base: nat, j: nat) -> Seq<LocationView>
    decreases j,
{
    if j == 0 {
        Seq::empty()
    } else {
        let prev = span_samples(secs, base, (j - 1) as nat);
        match found_at(secs, base + 4 * (j - 1)) {
            Some(l) => prev.push(l),
            None => prev,
        }
    }
}

/// Per-file statistics of sampled locations: file, count, minimum line,
/// minimum column, maximum line, maximum column.
pub type StatView = (Seq<char>, u32, u32, u32, u32, u32);

/// The file a location is counted for.
pub open spec fn stat_file(l: LocationView) -> Seq<char> {
    match l.0 {
        Some(f) => f,
        None => "<unknown>"@,
    }
}

/// The position of the first statistics entry for file `f`.
pub open spec fn stat_pos(st: Seq<StatView>, f: Seq<char>) -> Option<int>
    decreases st.len(),
{
    if st.len() == 0 {
        None
    } else if st[0].0 == f {
        Some(0)
    } else {
        match stat_pos(st.drop_first(), f) {
            Some(i) => Some(i + 1),
            None => None,
        }
    }
}

/// `c.saturating_add(1)`.
pub open spec fn sat_inc(c: u32) -> u32 {
    if c == u32::MAX { c } else { (c + 1) as u32 }
}

/// `a.min(b)` and `a.max(b)`.
pub open spec fn min_u32(a: u32, b: u32) -> u32 {
    if a <= b { a } else { b }
}

pub open spec fn max_u32(a: u32, b: u32) -> u32 {
    if a >= b { a } else { b }
}

/// One more location counted in an entry: the count goes up (saturating),
/// and a known line or column widens the ranges.
pub open spec fn stat_update(s: StatView, l: LocationView) -> StatView {
    (
        s.0,
        sat_inc(s.1),
        match l.1 { Some(x) => min_u32(s.2, x), None => s.2 },
        match l.2 { Some(x) => min_u32(s.3, x), None => s.3 },
        match l.1 { Some(x) => max_u32(s.4, x), None => s.4 },
        match l.2 { Some(x) => max_u32(s.5, x), None => s.5 },
    )
}

/// Counts one location: into the entry of its file, or into a new entry
/// that starts from count 0, the location's line and column (0 when
/// unknown) as minima, and maxima 0.
pub open spec fn stats_add(st: Seq<StatView>, l: LocationView) -> Seq<StatView> {
    let f = stat_file(l);
    match stat_pos(st, f) {
        Some(i) => st.update(i, stat_update(st[i], l)),
        None => st.push(stat_update(
            (f, 0u32, match l.1 { Some(x) => x, None => 0u32 }, match l.2 { Some(x) => x, None => 0u32 }, 0u32, 0u32),
            l,
        )),
    }
}

/// The statistics of a sequence of locations, files in first-seen order.
pub open spec fn stats_of(locs: Seq<LocationView>) -> Seq<StatView>
    decreases locs.len(),
{
    if locs.len() == 0 {
        Seq::empty()
    } else {
        stats_add(stats_of(locs.drop_last()), locs.last())
    }
}

/// The position of the first entry with the largest count among the first
/// `k` entries.
pub open spec fn dominant_upto(st: Seq<StatView>, k: nat) -> int
    decreases k,
{
    if k <= 1 {
        0
    } else {
        let b = dominant_upto(st, (k - 1) as nat);
        if st[k - 1].1 > st[b].1 { k - 1 } else { b }
    }
}

/// The source span of the body `start..end`: locations are sampled every 4
/// bytes over the first 8192 bytes of the body (module-relative addresses),
/// counted per file, and the file with the most samples (the first seen
/// among equals) gives file and line/column extent. `None` for an empty
/// body or when no sample has a location.
pub open spec fn body_span(secs: Seq<(Seq<char>, Seq<u8>)>, first: usize, start: usize, end: usize) -> Option<(Seq<char>, u32, u32, u32, u32)> {
    let len = end - start;
    if len <= 0 {
        None
    } else {
        let n = if len < 8192 { len } else { 8192 };
        let st = stats_of(span_samples(secs, sat_sub(start, first), ((n + 3) / 4) as nat));
        if st.len() == 0 {
            None
        } else {
            let d = st[dominant_upto(st, st.len())];
            Some((d.0, d.2, d.3, d.4, d.5))
        }
    }
}

/// The view of a source span.
pub open spec fn span_view(s: SourceSpan) -> (Seq<char>, u32, u32, u32, u32) {
    (s.file@, s.start_line, s.start_column, s.end_line, s.end_column)
}

type StatEntry = (String, u32, u32, u32, u32, u32);

spec fn stats_view(v: Seq<StatEntry>) -> Seq<StatView> {
    v.map_values(|e: StatEntry| (e.0@, e.1, e.2, e.3, e.4, e.5))
}

/// The position of the first entry for `file`.
fn find_stat(stats: &Vec<StatEntry>, file: &String) -> (r: Option<usize>)
    ensures
        match r {
            Some(i) => stat_pos(stats_view(stats@), file@) == Some(i as int) && i < stats@.len(),
            None => stat_pos(stats_view(stats@), file@) is None,
        },
{
    let ghost st = stats_view(stats@);
    let mut i: usize = 0;
    proof {
        assert(st.skip(0) =~= st);
    }
    while i < stats.len()
        invariant
            i <= stats.len(),
            st == stats_view(stats@),
            stat_pos(st, file@) == match stat_pos(st.skip(i as int), file@) {
                Some(j) => Some(j + i),
                None => None,
            },
        decreases stats.len() - i,
    {
        proof {
            assert(st.skip(i as int).drop_first() =~= st.skip(i + 1));
            assert(st.skip(i as int)[0] == st[i as int]);
        }
        if stats[i].0 == *file {
            return Some(i);
        }
        i = i + 1;
    }
    proof {
        assert(st.skip(i as int).len() == 0);
    }
    None
}

/// `stat_update` on an entry.
fn updated_stat(s: StatEntry, l: &RawLocation) -> (r: StatEntry)
    ensures
        (r.0@, r.1, r.2, r.3, r.4, r.5) == stat_update((s.0@, s.1, s.2, s.3, s.4, s.5), l@),
{
    let count = if s.1 == u32::MAX { s.1 } else { s.1 + 1 };
    let (min_line, max_line) = match l.line {
        Some(x) => (if s.2 <= x { s.2 } else { x }, if s.4 >= x { s.4 } else { x }),
        None => (s.2, s.4),
    };
    let (min_col, max_col) = match l.column {
        Some(x) => (if s.3 <= x { s.3 } else { x }, if s.5 >= x { s.5 } else { x }),
        None => (s.3, s.5),
    };
    (s.0, count, min_line, min_col, max_line, max_col)
}

/// Counts one found location into the statistics.
fn add_stat(stats: &mut Vec<StatEntry>, l: RawLocation)
    ensures
        stats_view(final(stats)@) == stats_add(stats_view(old(stats)@), l@),
{
    let file = match &l.file {
        Some(f) => f.clone(),
        None => "<unknown>".to_owned(),
    };
    assert(file@ == stat_file(l@));
    let ghost before = stats_view(stats@);
    match find_stat(stats, &file) {
        Some(i) => {
            let e = &stats[i];
            let u = updated_stat((e.0.clone(), e.1, e.2, e.3, e.4, e.5), &l);
            stats.set(i, u);
            proof {
                assert(stats_view(stats@) =~= before.update(i as int, stat_update(before[i as int], l@)));
            }
        },
        None => {
            let line = match l.line { Some(x) => x, None => 0 };
            let column = match l.column { Some(x) => x, None => 0 };
            let u = updated_stat((file, 0, line, column, 0, 0), &l);
            stats.push(u);
            proof {
                assert(stats_view(stats@) =~= before.push(stat_update(
                    (stat_file(l@), 0u32, line, column, 0u32, 0u32), l@)));
            }
        },
    }
}

/// The position of the first entry with the largest count.
fn dominant_stat(stats: &Vec<StatEntry>) -> (r: usize)
    requires
        stats@.len() > 0,
    ensures
        r as int == dominant_upto(stats_view(stats@), stats@.len() as nat),
        r < stats@.len(),
{
    let ghost st = stats_view(stats@);
    let mut best: usize = 0;
    let mut k: usize = 1;
    while k < stats.len()
        invariant
            1 <= k <= stats.len(),
            st == stats_view(stats@),
            best < k,
            best as int == dominant_upto(st, k as nat),
        decreases stats.len() - k,
    {
        proof {
            assert(st[k as int].1 == stats@[k as int].1);
            assert(st[best as int].1 == stats@[best as int].1);
        }
        if stats[k].1 > stats[best].1 {
            best = k;
        }
        k = k + 1;
    }
    best
}

/// The best-effort source span of the body `start..end`, sampling DWARF
/// locations over the body (see `body_span`).
pub fn body_source_span(dc: &DwarfCtx, start: usize, end: usize) -> (r: Option<SourceSpan>)
    requires
        start <= end,
        start + 8192 <= usize::MAX,
    ensures
        match r {
            Some(sp) => body_span(dc.debug_sections(), dc.body_base(), start, end) == Some(span_view(sp)),
            None => body_span(dc.debug_sections(), dc.body_base(), start, end) is None,
        },
{
    let ghost secs = dc.debug_sections();
    let len = end - start;
    if len == 0 {
        return None;
    }
    let first = dc.first_body_start();
    let base = if start >= first { start - first } else { 0 };
    let max_probe = if len < 8192 { len } else { 8192 };
    let mut stats: Vec<StatEntry> = Vec::new();
    let mut offset: usize = 0;
    let ghost mut j: nat = 0;
    while offset < max_probe
        invariant
            offset == 4 * j,
            offset <= max_probe + 3,
            max_probe <= 8192,
            base + 8192 <= usize::MAX,
            secs == dc.debug_sections(),
            stats_view(stats@) == stats_of(span_samples(secs, base as nat, j)),
        decreases max_probe + 3 - offset,
    {
        let ghost prev = span_samples(secs, base as nat, j);
        match find_location(dc, (base + offset) as u64) {
            Lookup::Found(l) => {
                proof {
                    assert(span_samples(secs, base as nat, j + 1) == prev.push(l@));
                    assert(prev.push(l@).drop_last() =~= prev);
                }
                add_stat(&mut stats, l);
            },
            _ => {
                proof {
                    assert(span_samples(secs, base as nat, j + 1) == prev);
                }
            },
        }
        offset = offset + 4;
        proof {
            j = j + 1;
        }
    }
    proof {
        assert(j == (max_probe + 3) / 4);
    }
    if stats.len() == 0 {
        return None;
    }
    let d = dominant_stat(&stats);
    let e = &stats[d];
    proof {
        assert(stats_view(stats@)[d as int] == (e.0@, e.1, e.2, e.3, e.4, e.5));
    }
    Some(SourceSpan {
        file: e.0.clone(),
        start_line: e.2,
        start_column: e.3,
        end_line: e.4,
        end_column: e.5,
    })
}

/// The source span of the body that the walk finds for function `t`;
/// `None` when there is no such body or its sampled addresses would not fit
/// in `usize`.
pub open spec fn walked_span(secs: Seq<(Seq<char>, Seq<u8>)>, first: usize, d: Seq<u8>, t: u32) -> Option<(Seq<char>, u32, u32, u32, u32)> {
    match target_body(d, t) {
        Some((s, e)) => if s + 8192 <= usize::MAX { body_span(secs, first, s, e) } else { None },
        None => None,
    }
}

/// The view of an optional source span.
pub open spec fn opt_span_view(r: Option<SourceSpan>) -> Option<(Seq<char>, u32, u32, u32, u32)> {
    match r {
        Some(sp) => Some(span_view(sp)),
        None => None,
    }
}

/// Computes the best-effort source span (dominant file and line/column
/// extent) of function `func_index` by probing DWARF mappings across its
/// body. `None` if the context cannot be built, the function is not found,
/// or no mapping is found.
pub fn function_source_span(wasm_bytes: &[u8], func_index: u32) -> (r: Option<SourceSpan>)
    ensures
        !(object_parses(wasm_bytes@) && dwarf_context_builds(collected_sections(wasm_bytes@, debug_section_names())))
            ==> r is None,
        object_parses(wasm_bytes@) && dwarf_context_builds(collected_sections(wasm_bytes@, debug_section_names())) ==>
            opt_span_view(r) == walked_span(collected_sections(wasm_bytes@, debug_section_names()),
                first_code_start(wasm_bytes@), wasm_bytes@, func_index),
{
    let dc = init_dwarf_context(wasm_bytes)?;
    function_source_span_with(&dc, wasm_bytes, func_index)
}

/// `function_source_span` with a context built beforehand. A body whose
/// sampled addresses would not fit in `usize` has no span.
pub fn function_source_span_with(dc: &DwarfCtx, wasm_bytes: &[u8], func_index: u32) -> (r: Option<SourceSpan>)
    ensures
        opt_span_view(r) == walked_span(dc.debug_sections(), dc.body_base(), wasm_bytes@, func_index),
{
    let (start, end) = function_body_extent(wasm_bytes, func_index)?;
    if start > usize::MAX - 8192 {
        return None;
    }
    body_source_span(dc, start, end)
}

} // verus!
