//! The boundary to `wasmparser`: the reader types that the module walk
//! carries, and one trusted wrapper per reader operation, each converting the
//! crate's result into plain values of this library.
//!
//! None of these wrappers promises more than `wasmparser`'s source shows.
//! Every reader here is made from the module bytes by a fixed sequence of
//! calls, so what each read gives is named as a function of the bytes and
//! of where the reader came from: a payload parser by its origin (the
//! steps that handed out the nested parsers leading to it) and its step
//! count, a section's item reader by the step that produced the section and
//! its read count, and a function body's readers by the body's byte range
//! and their read count. The readers carry that place as ghost state, which
//! only the wrappers here set.

use vstd::prelude::*;

use wasmparser::{
    BinaryReader, BinaryReaderError, Chunk, CustomSectionReader, Export, ExternalKind, FunctionBody, Import, Imports,
    ImportsIter, LocalsReader, Name, NameMap, NameSectionReader, Naming, Operator,
    OperatorsReader, Parser, Payload, SectionLimited, SectionLimitedIntoIter, TypeRef,
};

verus! {

#[verifier::external_type_specification]
#[verifier::external_body]
pub struct ExParser(Parser);

#[verifier::external_type_specification]
#[verifier::external_body]
pub struct ExBinaryReaderError(BinaryReaderError);

#[verifier::external_type_specification]
#[verifier::external_body]
pub struct ExPayload<'a>(Payload<'a>);

#[verifier::external_type_specification]
#[verifier::external_body]
#[verifier::reject_recursive_types(T)]
pub struct ExSectionLimited<'a, T>(SectionLimited<'a, T>);

#[verifier::external_type_specification]
#[verifier::external_body]
#[verifier::reject_recursive_types(T)]
pub struct ExSectionLimitedIntoIter<'a, T>(SectionLimitedIntoIter<'a, T>);

#[verifier::external_type_specification]
#[verifier::external_body]
pub struct ExImports<'a>(Imports<'a>);

#[verifier::external_type_specification]
#[verifier::external_body]
pub struct ExImport<'a>(Import<'a>);

#[verifier::external_type_specification]
#[verifier::external_body]
pub struct ExName<'a>(Name<'a>);

#[verifier::external_type_specification]
#[verifier::external_body]
pub struct ExImportsIter<'a>(ImportsIter<'a>);

#[verifier::external_type_specification]
#[verifier::external_body]
pub struct ExExport<'a>(Export<'a>);

#[verifier::external_type_specification]
#[verifier::external_body]
pub struct ExFunctionBody<'a>(FunctionBody<'a>);

#[verifier::external_type_specification]
#[verifier::external_body]
pub struct ExCustomSectionReader<'a>(CustomSectionReader<'a>);

#[verifier::external_type_specification]
#[verifier::external_body]
pub struct ExNameSectionReader<'a>(NameSectionReader<'a>);

#[verifier::external_type_specification]
#[verifier::external_body]
pub struct ExNameMap<'a>(NameMap<'a>);

#[verifier::external_type_specification]
#[verifier::external_body]
pub struct ExNaming<'a>(Naming<'a>);

#[verifier::external_type_specification]
#[verifier::external_body]
pub struct ExOperatorsReader<'a>(OperatorsReader<'a>);

#[verifier::external_type_specification]
#[verifier::external_body]
pub struct ExOperator<'a>(Operator<'a>);

#[verifier::external_type_specification]
#[verifier::external_body]
pub struct ExLocalsReader<'a>(LocalsReader<'a>);

/// A payload parser together with where it stands: the module bytes, the
/// parser's origin, and the number of steps it has made. The origin of the
/// parser made by `new_parser` is the empty path; the origin of the parser
/// that step `k` of a parser with origin `o` hands out for a nested module
/// or component is `o.push(k)`. Every step parses from the parser's own
/// offset with all input present, so what step `k` of the parser with
/// origin `o` gives is a function of the bytes, `o` and `k`.
pub struct WalkParser {
    p: Parser,
    at: Ghost<(Seq<u8>, Seq<nat>)>,
    steps: Ghost<nat>,
}

impl WalkParser {
    /// The module bytes parsed.
    pub closed spec fn data(self) -> Seq<u8> {
        self.at@.0
    }

    /// The parser's origin.
    pub closed spec fn origin(self) -> Seq<nat> {
        self.at@.1
    }

    /// The number of steps made.
    pub closed spec fn steps(self) -> nat {
        self.steps@
    }
}

/// A payload together with the step that produced it: the module bytes,
/// the parser's origin and the step number.
pub struct PayloadAt<'a> {
    payload: Payload<'a>,
    at: Ghost<(Seq<u8>, Seq<nat>, nat)>,
}

impl<'a> PayloadAt<'a> {
    /// The module bytes, the parser's origin and the step number.
    pub closed spec fn at(self) -> (Seq<u8>, Seq<nat>, nat) {
        self.at@
    }
}

/// A code section entry together with the step that produced it.
pub struct CodeEntry<'a> {
    body: FunctionBody<'a>,
    at: Ghost<(Seq<u8>, Seq<nat>, nat)>,
}

impl<'a> CodeEntry<'a> {
    /// The module bytes, the parser's origin and the step number.
    pub closed spec fn at(self) -> (Seq<u8>, Seq<nat>, nat) {
        self.at@
    }
}

/// An import section together with the step that produced it.
pub struct ImportSection<'a> {
    s: SectionLimited<'a, Imports<'a>>,
    at: Ghost<(Seq<u8>, Seq<nat>, nat)>,
}

impl<'a> ImportSection<'a> {
    /// The module bytes, the parser's origin and the step number.
    pub closed spec fn at(self) -> (Seq<u8>, Seq<nat>, nat) {
        self.at@
    }
}

/// The payloads of a module that the analyses look at; every other payload
/// is `Other`.
pub enum Section<'a> {
    Imports(ImportSection<'a>),
    Exports(ExportSection<'a>),
    CodeEntry(CodeEntry<'a>),
    Custom(CustomAt<'a>),
    /// A nested module or component (inside a component) with its own parser.
    Nested(WalkParser),
    /// The end of the current module or component.
    End,
    Other,
}

/// The kind of a payload, as `Section` sorts them.
pub enum PayloadKind {
    Imports,
    Exports,
    CodeEntry,
    Custom,
    Nested,
    End,
    Other,
}

/// The kind of a sorted payload.
pub open spec fn section_kind(s: Section) -> PayloadKind {
    match s {
        Section::Imports(_) => PayloadKind::Imports,
        Section::Exports(_) => PayloadKind::Exports,
        Section::CodeEntry(_) => PayloadKind::CodeEntry,
        Section::Custom(_) => PayloadKind::Custom,
        Section::Nested(_) => PayloadKind::Nested,
        Section::End => PayloadKind::End,
        Section::Other => PayloadKind::Other,
    }
}

/// One step of the payload walk: the bytes consumed and the payload.
pub enum Step<'a> {
    Parsed(usize, PayloadAt<'a>),
    /// The parser asked for more input (does not happen when `eof` is set).
    NeedMoreData,
}

/// What a parser step gives, without its payload.
pub enum ParseOutcome {
    Parsed(usize),
    NeedMore,
    Failed,
}

/// `Parser::new(0)`: the parser, at offset 0, of a module or component held
/// in `data`.
#[verifier::external_body]
pub(crate) fn new_parser(data: &[u8]) -> (w: WalkParser)
    ensures
        w.data() == data@,
        w.origin() == Seq::<nat>::empty(),
        w.steps() == 0,
{
    WalkParser { p: Parser::new(0), at: Ghost((data@, Seq::empty())), steps: Ghost(0) }
}

/// The offset (`Parser::offset`) of the parser with origin `origin` over
/// `data` after `k` steps.
pub uninterp spec fn parser_offset_at(data: Seq<u8>, origin: Seq<nat>, k: nat) -> u64;

/// `Parser::offset`: where the parser stands in the module bytes.
#[verifier::external_body]
pub(crate) fn parser_offset(w: &WalkParser) -> (o: u64)
    ensures
        o == parser_offset_at(w.data(), w.origin(), w.steps()),
{
    w.p.offset()
}

/// What step `k` (from 0) of the parser with origin `origin` over `data`
/// gives: the bytes consumed, a request for more input, or an error.
pub uninterp spec fn parse_outcome(data: Seq<u8>, origin: Seq<nat>, k: nat) -> ParseOutcome;

/// `Parser::parse(&data[pos..], true)` at the parser's own offset `pos`,
/// with all input present. By the source of `Parser::parse`, the bytes
/// consumed never exceed the input handed over.
#[verifier::external_body]
pub(crate) fn parse_step<'a>(w: &mut WalkParser, data: &'a [u8], pos: usize) -> (r: Result<Step<'a>, BinaryReaderError>)
    requires
        data@ == old(w).data(),
        pos <= data@.len(),
        pos == parser_offset_at(old(w).data(), old(w).origin(), old(w).steps()),
    ensures
        final(w).data() == old(w).data(),
        final(w).origin() == old(w).origin(),
        final(w).steps() == old(w).steps() + 1,
        parse_outcome(old(w).data(), old(w).origin(), old(w).steps()) == match r {
            Ok(Step::Parsed(n, _)) => ParseOutcome::Parsed(n),
            Ok(Step::NeedMoreData) => ParseOutcome::NeedMore,
            Err(_) => ParseOutcome::Failed,
        },
        r matches Ok(Step::Parsed(n, p)) ==> n <= data@.len() - pos
            && p.at() == (old(w).data(), old(w).origin(), old(w).steps()),
{
    let at = Ghost((w.at@.0, w.at@.1, w.steps@));
    w.steps = Ghost(w.steps@ + 1);
    match w.p.parse(&data[pos..], true)? {
        Chunk::Parsed { consumed, payload } => Ok(Step::Parsed(consumed, PayloadAt { payload, at })),
        Chunk::NeedMoreData(_) => Ok(Step::NeedMoreData),
    }
}

/// The kind of the payload that step `k` of the parser with origin
/// `origin` over `data` produced.
pub uninterp spec fn payload_kind(data: Seq<u8>, origin: Seq<nat>, k: nat) -> PayloadKind;

/// Sorts a `wasmparser::Payload` into the variants this library looks at,
/// moving the readers out. By the source of `Parser::parse_reader`, only the
/// `End` payload is produced without consuming input, so `consumed == 0`
/// implies `End`.
#[verifier::external_body]
pub(crate) fn classify_payload<'a>(p: PayloadAt<'a>, consumed: usize) -> (s: Section<'a>)
    ensures
        section_kind(s) == payload_kind(p.at().0, p.at().1, p.at().2),
        consumed == 0 ==> s is End,
        s matches Section::Imports(i) ==> i.at() == p.at(),
        s matches Section::CodeEntry(c) ==> c.at() == p.at(),
        s matches Section::Exports(x) ==> x.at() == p.at(),
        s matches Section::Custom(c) ==> c.at() == p.at(),
        s matches Section::Nested(w) ==> w.data() == p.at().0 && w.origin() == p.at().1.push(p.at().2) && w.steps() == 0,
{
    let at = p.at;
    match p.payload {
        Payload::ImportSection(s) => Section::Imports(ImportSection { s, at }),
        Payload::ExportSection(s) => Section::Exports(ExportSection { s, at }),
        Payload::CodeSectionEntry(body) => Section::CodeEntry(CodeEntry { body, at }),
        Payload::CustomSection(cs) => Section::Custom(CustomAt { cs, at }),
        Payload::ModuleSection { parser, .. } | Payload::ComponentSection { parser, .. } =>
            Section::Nested(WalkParser { p: parser, at: Ghost((at@.0, at@.1.push(at@.2))), steps: Ghost(0) }),
        Payload::End(_) => Section::End,
        _ => Section::Other,
    }
}

/// The message and offset of a `wasmparser` error (`message()`, `offset()`).
/// Nothing is stated of the parts: the error value is opaque to Verus.
#[verifier::external_body]
pub(crate) fn reader_error_parts(e: BinaryReaderError) -> (r: (String, u64))
{
    (e.message().to_string(), e.offset())
}

/// The item count declared in the header of the import section produced by
/// step `k` of the parser with origin `origin` over `data`.
pub uninterp spec fn import_count_at(data: Seq<u8>, origin: Seq<nat>, k: nat) -> u32;

/// `SectionLimited::count` of an import section.
#[verifier::external_body]
pub(crate) fn import_section_count<'a>(s: &ImportSection<'a>) -> (n: u32)
    ensures
        n == import_count_at(s.at().0, s.at().1, s.at().2),
{
    s.s.count()
}

/// The import groups of an import section with the number of reads made.
pub struct ImportGroups<'a> {
    it: SectionLimitedIntoIter<'a, Imports<'a>>,
    at: Ghost<(Seq<u8>, Seq<nat>, nat)>,
    reads: Ghost<nat>,
}

impl<'a> ImportGroups<'a> {
    /// The module bytes, the parser's origin and the step number.
    pub closed spec fn at(self) -> (Seq<u8>, Seq<nat>, nat) {
        self.at@
    }

    /// The number of reads made so far.
    pub closed spec fn reads(self) -> nat {
        self.reads@
    }
}

/// One import group with where it was read: the module bytes, the
/// parser's origin, the step number and the read number.
pub struct ImportGroup<'a> {
    g: Imports<'a>,
    at: Ghost<(Seq<u8>, Seq<nat>, nat, nat)>,
}

impl<'a> ImportGroup<'a> {
    /// The module bytes, the parser's origin, the step and the read number.
    pub closed spec fn at(self) -> (Seq<u8>, Seq<nat>, nat, nat) {
        self.at@
    }
}

/// `SectionLimited::into_iter` for the import section.
#[verifier::external_body]
pub(crate) fn import_groups<'a>(s: ImportSection<'a>) -> (it: ImportGroups<'a>)
    ensures
        it.at() == s.at(),
        it.reads() == 0,
{
    ImportGroups { it: s.s.into_iter(), at: s.at, reads: Ghost(0) }
}

/// What read `g` (from 0) of the import groups of the import section of
/// step `k` of the parser with origin `origin` over `data` gives: `None` at
/// the end, an error, or a group.
pub uninterp spec fn import_group_read(data: Seq<u8>, origin: Seq<nat>, k: nat, g: nat) -> Option<Result<(), ()>>;

/// `SectionLimitedIntoIter::next` over import groups.
#[verifier::external_body]
pub(crate) fn next_import_group<'a>(c: &mut ImportGroups<'a>) -> (r: Option<Result<ImportGroup<'a>, BinaryReaderError>>)
    ensures
        final(c).at() == old(c).at(),
        final(c).reads() == old(c).reads() + 1,
        import_group_read(old(c).at().0, old(c).at().1, old(c).at().2, old(c).reads()) == match r {
            None => None,
            Some(Err(_)) => Some(Err(())),
            Some(Ok(_)) => Some(Ok(())),
        },
        r matches Some(Ok(gr)) ==> gr.at() == (old(c).at().0, old(c).at().1, old(c).at().2, old(c).reads()),
{
    let at = Ghost((c.at@.0, c.at@.1, c.at@.2, c.reads@));
    c.reads = Ghost(c.reads@ + 1);
    match c.it.next()? {
        Ok(g) => Some(Ok(ImportGroup { g, at })),
        Err(e) => Some(Err(e)),
    }
}

/// The number of imports of read `g` of the import groups of the import
/// section of step `k` of the parser with origin `origin` over `data`.
pub uninterp spec fn import_group_len(data: Seq<u8>, origin: Seq<nat>, k: nat, g: nat) -> u32;

/// The number of imports a group holds: one for a single import, else the
/// count of the compact item list (`SectionLimited::count`).
#[verifier::external_body]
pub(crate) fn group_len<'a>(gr: &ImportGroup<'a>) -> (n: u32)
    ensures
        n == import_group_len(gr.at().0, gr.at().1, gr.at().2, gr.at().3),
{
    match &gr.g {
        Imports::Single(..) => 1,
        Imports::Compact1 { items, .. } => items.count(),
        Imports::Compact2 { names, .. } => names.count(),
    }
}

/// The imports of one group with the number of reads made.
pub struct ImportItems<'a> {
    it: ImportsIter<'a>,
    at: Ghost<(Seq<u8>, Seq<nat>, nat, nat)>,
    reads: Ghost<nat>,
}

impl<'a> ImportItems<'a> {
    /// The module bytes, the parser's origin, the step and the group's read number.
    pub closed spec fn at(self) -> (Seq<u8>, Seq<nat>, nat, nat) {
        self.at@
    }

    /// The number of reads made so far.
    pub closed spec fn reads(self) -> nat {
        self.reads@
    }
}

/// `Imports::into_iter`: the imports of one group, one by one.
#[verifier::external_body]
pub(crate) fn group_imports<'a>(gr: ImportGroup<'a>) -> (it: ImportItems<'a>)
    ensures
        it.at() == gr.at(),
        it.reads() == 0,
{
    ImportItems { it: gr.g.into_iter(), at: gr.at, reads: Ghost(0) }
}

/// What read `j` (from 0) of the imports of read `g` of the import groups
/// of the import section of step `k` of the parser with origin `origin`
/// over `data` gives: `None` at the end, an error, or whether the import is
/// a function (`TypeRef::Func`).
pub uninterp spec fn import_item_read(data: Seq<u8>, origin: Seq<nat>, k: nat, g: nat, j: nat) -> Option<Result<bool, ()>>;

/// `ImportsIter::next`, reporting whether the import's type is
/// `TypeRef::Func`.
#[verifier::external_body]
pub(crate) fn next_import_is_func<'a>(c: &mut ImportItems<'a>) -> (r: Option<Result<bool, BinaryReaderError>>)
    ensures
        final(c).at() == old(c).at(),
        final(c).reads() == old(c).reads() + 1,
        import_item_read(old(c).at().0, old(c).at().1, old(c).at().2, old(c).at().3, old(c).reads()) == match r {
            None => None,
            Some(Err(_)) => Some(Err(())),
            Some(Ok(b)) => Some(Ok(b)),
        },
{
    c.reads = Ghost(c.reads@ + 1);
    match c.it.next()? {
        Ok((_, import)) => Some(Ok(matches!(import.ty, TypeRef::Func(_)))),
        Err(e) => Some(Err(e)),
    }
}

/// An export section together with the step that produced it.
pub struct ExportSection<'a> {
    s: SectionLimited<'a, Export<'a>>,
    at: Ghost<(Seq<u8>, Seq<nat>, nat)>,
}

impl<'a> ExportSection<'a> {
    /// The module bytes, the parser's origin and the step number.
    pub closed spec fn at(self) -> (Seq<u8>, Seq<nat>, nat) {
        self.at@
    }
}

/// The item count declared in the header of the export section produced by
/// step `k` of the parser with origin `origin` over `data`.
pub uninterp spec fn export_count_at(data: Seq<u8>, origin: Seq<nat>, k: nat) -> u32;

/// `SectionLimited::count` of an export section.
#[verifier::external_body]
pub(crate) fn export_section_count<'a>(s: &ExportSection<'a>) -> (n: u32)
    ensures
        n == export_count_at(s.at().0, s.at().1, s.at().2),
{
    s.s.count()
}

/// The exports of an export section with the number of reads made.
pub struct ExportItems<'a> {
    it: SectionLimitedIntoIter<'a, Export<'a>>,
    at: Ghost<(Seq<u8>, Seq<nat>, nat)>,
    reads: Ghost<nat>,
}

impl<'a> ExportItems<'a> {
    /// The module bytes, the parser's origin and the step number.
    pub closed spec fn at(self) -> (Seq<u8>, Seq<nat>, nat) {
        self.at@
    }

    /// The number of reads made so far.
    pub closed spec fn reads(self) -> nat {
        self.reads@
    }
}

/// `SectionLimited::into_iter` for the export section.
#[verifier::external_body]
pub(crate) fn exports_iter<'a>(s: ExportSection<'a>) -> (it: ExportItems<'a>)
    ensures
        it.at() == s.at(),
        it.reads() == 0,
{
    ExportItems { it: s.s.into_iter(), at: s.at, reads: Ghost(0) }
}

/// What read `j` (from 0) of the exports of the export section of step `k`
/// of the parser with origin `origin` over `data` gives: `None` at the end,
/// an error, or whether the export is a function, its index and its name.
pub uninterp spec fn export_read(data: Seq<u8>, origin: Seq<nat>, k: nat, j: nat) -> Option<Result<(bool, u32, Seq<char>), ()>>;

/// `SectionLimitedIntoIter::next` over exports: whether the export is a
/// function (`ExternalKind::Func`), its index and its name.
#[verifier::external_body]
pub(crate) fn next_export<'a>(c: &mut ExportItems<'a>) -> (r: Option<Result<(bool, u32, String), BinaryReaderError>>)
    ensures
        final(c).at() == old(c).at(),
        final(c).reads() == old(c).reads() + 1,
        export_read(old(c).at().0, old(c).at().1, old(c).at().2, old(c).reads()) == match r {
            None => None,
            Some(Err(_)) => Some(Err(())),
            Some(Ok((f, i, n))) => Some(Ok((f, i, n@))),
        },
{
    c.reads = Ghost(c.reads@ + 1);
    match c.it.next()? {
        Ok(e) => Some(Ok((e.kind == ExternalKind::Func, e.index, e.name.to_string()))),
        Err(e) => Some(Err(e)),
    }
}

/// The body range (start, end) and body byte count of the code section
/// entry produced by step `k` of the parser with origin `origin` over
/// `data`.
pub uninterp spec fn code_entry_extent(data: Seq<u8>, origin: Seq<nat>, k: nat) -> (usize, usize, usize);

/// The byte range of a function body (`FunctionBody::get_binary_reader().range()`)
/// and its `bytes_remaining()`. By the source of `BinaryReader::range`, the
/// range is `offset..offset + len` of a fresh reader, so `start <= end` and
/// the remaining byte count is `end - start`; the body size is read as a
/// `var_u32`, so it is at most `u32::MAX`.
#[verifier::external_body]
pub(crate) fn body_extent<'a>(e: &CodeEntry<'a>) -> (r: (usize, usize, usize))
    ensures
        r == code_entry_extent(e.at().0, e.at().1, e.at().2),
        r.0 <= r.1,
        r.2 == r.1 - r.0,
        r.2 <= u32::MAX,
{
    let reader = e.body.get_binary_reader();
    let range = reader.range();
    (range.start as usize, range.end as usize, reader.bytes_remaining())
}

/// A custom section together with the step that produced it.
pub struct CustomAt<'a> {
    cs: CustomSectionReader<'a>,
    at: Ghost<(Seq<u8>, Seq<nat>, nat)>,
}

impl<'a> CustomAt<'a> {
    /// The module bytes, the parser's origin and the step number.
    pub closed spec fn at(self) -> (Seq<u8>, Seq<nat>, nat) {
        self.at@
    }
}

/// The name of the custom section produced by step `k` of the parser with
/// origin `origin` over `data`.
pub uninterp spec fn custom_name_at(data: Seq<u8>, origin: Seq<nat>, k: nat) -> Seq<char>;

/// `CustomSectionReader::name`.
#[verifier::external_body]
pub(crate) fn custom_section_name<'a>(c: &CustomAt<'a>) -> (name: String)
    ensures
        name@ == custom_name_at(c.at().0, c.at().1, c.at().2),
{
    c.cs.name().to_string()
}

/// The number of data bytes of the custom section produced by step `k` of
/// the parser with origin `origin` over `data`.
pub uninterp spec fn custom_len_at(data: Seq<u8>, origin: Seq<nat>, k: nat) -> usize;

/// The number of data bytes of a custom section (`data().len()`).
#[verifier::external_body]
pub(crate) fn custom_section_len<'a>(c: &CustomAt<'a>) -> (n: usize)
    ensures
        n == custom_len_at(c.at().0, c.at().1, c.at().2),
{
    c.cs.data().len()
}

/// The subsections of a name section with the number of reads made.
pub struct NameSubsections<'a> {
    r: NameSectionReader<'a>,
    at: Ghost<(Seq<u8>, Seq<nat>, nat)>,
    reads: Ghost<nat>,
}

impl<'a> NameSubsections<'a> {
    /// The module bytes, the parser's origin and the step number.
    pub closed spec fn at(self) -> (Seq<u8>, Seq<nat>, nat) {
        self.at@
    }

    /// The number of reads made so far.
    pub closed spec fn reads(self) -> nat {
        self.reads@
    }
}

/// `NameSectionReader::new(BinaryReader::new(cs.data(), cs.data_offset()))`.
#[verifier::external_body]
pub(crate) fn name_section<'a>(c: &CustomAt<'a>) -> (r: NameSubsections<'a>)
    ensures
        r.at() == c.at(),
        r.reads() == 0,
{
    let reader = NameSectionReader::new(wasmparser::BinaryReader::new(c.cs.data(), c.cs.data_offset()));
    NameSubsections { r: reader, at: c.at, reads: Ghost(0) }
}

/// A function-name map with where it was read and the number of namings
/// read from it.
pub struct NameMapAt<'a> {
    m: NameMap<'a>,
    at: Ghost<(Seq<u8>, Seq<nat>, nat, nat)>,
    reads: Ghost<nat>,
}

impl<'a> NameMapAt<'a> {
    /// The module bytes, the parser's origin, the step and the subsection's read number.
    pub closed spec fn at(self) -> (Seq<u8>, Seq<nat>, nat, nat) {
        self.at@
    }

    /// The number of namings read so far.
    pub closed spec fn reads(self) -> nat {
        self.reads@
    }
}

/// What read `i` (from 0) of the subsections of the name section of the
/// custom section of step `k` of the parser with origin `origin` over
/// `data` gives: `None` at the end, an error, or whether it is the
/// function-name subsection (`Name::Function`).
pub uninterp spec fn name_sub_read(data: Seq<u8>, origin: Seq<nat>, k: nat, i: nat) -> Option<Result<bool, ()>>;

/// `NameSectionReader::next`: the function-name map of a `Name::Function`
/// subsection, `None` inside `Some(Ok(..))` for every other subsection kind.
#[verifier::external_body]
pub(crate) fn next_name_subsection<'a>(c: &mut NameSubsections<'a>) -> (s: Option<Result<Option<NameMapAt<'a>>, BinaryReaderError>>)
    ensures
        final(c).at() == old(c).at(),
        final(c).reads() == old(c).reads() + 1,
        name_sub_read(old(c).at().0, old(c).at().1, old(c).at().2, old(c).reads()) == match s {
            None => None,
            Some(Err(_)) => Some(Err(())),
            Some(Ok(m)) => Some(Ok(m is Some)),
        },
        s matches Some(Ok(Some(m))) ==> m.at() == (old(c).at().0, old(c).at().1, old(c).at().2, old(c).reads()) && m.reads() == 0,
{
    let at = Ghost((c.at@.0, c.at@.1, c.at@.2, c.reads@));
    c.reads = Ghost(c.reads@ + 1);
    match c.r.next()? {
        Ok(Name::Function(m)) => Some(Ok(Some(NameMapAt { m, at, reads: Ghost(0) }))),
        Ok(_) => Some(Ok(None)),
        Err(e) => Some(Err(e)),
    }
}

/// The number of namings of the function-name map read by read `i` of the
/// subsections of the name section of step `k` of the parser with origin
/// `origin` over `data` (the exact `size_hint` of its `names` iterator
/// before any naming is read).
pub uninterp spec fn name_map_len_at(data: Seq<u8>, origin: Seq<nat>, k: nat, i: nat) -> usize;

/// The number of namings left in a name map (the exact `size_hint` of its
/// `names` iterator), asked before any naming is read.
#[verifier::external_body]
pub(crate) fn name_map_len<'a>(m: &NameMapAt<'a>) -> (n: usize)
    requires
        m.reads() == 0,
    ensures
        n == name_map_len_at(m.at().0, m.at().1, m.at().2, m.at().3),
{
    m.m.names.size_hint().0
}

/// What read `j` (from 0) of the namings of that function-name map gives:
/// `None` at the end, an error, or the index and name of the naming.
pub uninterp spec fn naming_read(data: Seq<u8>, origin: Seq<nat>, k: nat, i: nat, j: nat) -> Option<Result<(u32, Seq<char>), ()>>;

/// `NameMap::next`: the index and name of the next naming.
#[verifier::external_body]
pub(crate) fn next_naming<'a>(m: &mut NameMapAt<'a>) -> (r: Option<Result<(u32, String), BinaryReaderError>>)
    ensures
        final(m).at() == old(m).at(),
        final(m).reads() == old(m).reads() + 1,
        naming_read(old(m).at().0, old(m).at().1, old(m).at().2, old(m).at().3, old(m).reads()) == match r {
            None => None,
            Some(Err(_)) => Some(Err(())),
            Some(Ok((i, n))) => Some(Ok((i, n@))),
        },
{
    m.reads = Ghost(m.reads@ + 1);
    match m.m.next()? {
        Ok(n) => Some(Ok((n.index, n.name.to_string()))),
        Err(e) => Some(Err(e)),
    }
}

/// Operators that carry one integer operand, with that operand. Float
/// constants carry the IEEE bit pattern of their value.
pub enum OperandOp {
    I32Const(i32),
    I64Const(i64),
    F32Const(u32),
    F64Const(u64),
    LocalGet(u32),
    LocalSet(u32),
    LocalTee(u32),
    GlobalGet(u32),
    GlobalSet(u32),
    Call(u32),
    Br(u32),
    BrIf(u32),
}

/// Integer and float add/sub/mul operators.
pub enum ArithOp {
    I32Add, I32Sub, I32Mul,
    I64Add, I64Sub, I64Mul,
    F32Add, F32Sub, F32Mul,
    F64Add, F64Sub, F64Mul,
}

/// Control and miscellaneous operators without a rendered operand.
pub enum ControlOp {
    CallIndirect,
    Block,
    Loop,
    If,
    Else,
    End,
    BrTable,
    Return,
    Drop,
    Select,
    Nop,
    Unreachable,
    MemoryGrow,
    MemorySize,
}

/// The operators of the function body stored at `data[start..end]`, read
/// from a fresh `FunctionBody::new(BinaryReader::new(&data[start..end], start))`,
/// with the number of reads made so far.
pub struct BodyOps<'a> {
    reader: OperatorsReader<'a>,
    at: Ghost<(Seq<u8>, usize, usize)>,
    reads: Ghost<nat>,
}

impl<'a> BodyOps<'a> {
    /// The bytes and the body range read.
    pub closed spec fn body(self) -> (Seq<u8>, usize, usize) {
        self.at@
    }

    /// The number of reads made so far.
    pub closed spec fn reads(self) -> nat {
        self.reads@
    }
}

/// An operator read from a body, with its absolute offset and where it was
/// read: the body bytes and range, and the number of the read.
pub struct OpItem<'a> {
    op: Operator<'a>,
    offset: usize,
    at: Ghost<(Seq<u8>, usize, usize, nat)>,
}

impl<'a> OpItem<'a> {
    /// The body bytes and range, and the number of the read.
    pub closed spec fn at(self) -> (Seq<u8>, usize, usize, nat) {
        self.at@
    }

    /// The operator's offset in the module.
    pub closed spec fn offset_view(self) -> usize {
        self.offset
    }

    /// The operator's offset in the module.
    pub fn offset(&self) -> (o: usize)
        ensures
            o == self.offset_view(),
    {
        self.offset
    }
}

/// Whether `FunctionBody::get_operators_reader` succeeds (skipping the
/// locals declarations) on the body stored at `data[start..end]`.
pub uninterp spec fn ops_open(data: Seq<u8>, start: usize, end: usize) -> bool;

/// `FunctionBody::get_operators_reader` on the body stored at
/// `data[start..end]`, with `start` as its offset in the module.
#[verifier::external_body]
pub(crate) fn open_body_ops<'a>(data: &'a [u8], start: usize, end: usize) -> (r: Result<BodyOps<'a>, BinaryReaderError>)
    requires
        start <= end <= data@.len(),
    ensures
        r is Ok <==> ops_open(data@, start, end),
        r matches Ok(c) ==> c.body() == (data@, start, end) && c.reads() == 0,
{
    let body = FunctionBody::new(BinaryReader::new(&data[start..end], start as u64));
    let reader = body.get_operators_reader()?;
    Ok(BodyOps { reader, at: Ghost((data@, start, end)), reads: Ghost(0) })
}

/// What the read numbered `k` (from 0) of a fresh operators reader of the
/// body at `data[start..end]` gives, where each read answers `None` at the
/// end of the body (`OperatorsReader::eof`) and else calls
/// `OperatorsReader::read_with_offset`: `Err` on a read error, else the
/// operator's offset in the module.
pub uninterp spec fn op_read(data: Seq<u8>, start: usize, end: usize, k: nat) -> Option<Result<usize, ()>>;

/// `None` at the end of the body (`OperatorsReader::eof`), else
/// `OperatorsReader::read_with_offset`, the offset converted to `usize`.
#[verifier::external_body]
pub(crate) fn next_op<'a>(c: &mut BodyOps<'a>) -> (r: Option<Result<OpItem<'a>, BinaryReaderError>>)
    ensures
        final(c).body() == old(c).body(),
        final(c).reads() == old(c).reads() + 1,
        op_read(old(c).body().0, old(c).body().1, old(c).body().2, old(c).reads()) == match r {
            None => None,
            Some(Err(_)) => Some(Err(())),
            Some(Ok(it)) => Some(Ok(it.offset_view())),
        },
        r matches Some(Ok(it)) ==> it.at() == (old(c).body().0, old(c).body().1, old(c).body().2, old(c).reads()),
{
    let at = Ghost((c.at@.0, c.at@.1, c.at@.2, c.reads@));
    c.reads = Ghost(c.reads@ + 1);
    if c.reader.eof() {
        return None;
    }
    match c.reader.read_with_offset() {
        Ok((op, off)) => Some(Ok(OpItem { op, offset: off as usize, at })),
        Err(e) => Some(Err(e)),
    }
}

/// The operand operator (variant and operand) read by read `k` of the body
/// at `data[start..end]`, if it is one; float constants carry their bits.
pub uninterp spec fn op_operand(data: Seq<u8>, start: usize, end: usize, k: nat) -> Option<OperandOp>;

/// Tells apart the `Operator` variants that carry one integer operand.
#[verifier::external_body]
pub(crate) fn operand_op<'a>(it: &OpItem<'a>) -> (r: Option<OperandOp>)
    ensures
        r == op_operand(it.at().0, it.at().1, it.at().2, it.at().3),
{
    Some(match it.op {
        Operator::I32Const { value } => OperandOp::I32Const(value),
        Operator::I64Const { value } => OperandOp::I64Const(value),
        Operator::F32Const { value } => OperandOp::F32Const(value.bits()),
        Operator::F64Const { value } => OperandOp::F64Const(value.bits()),
        Operator::LocalGet { local_index } => OperandOp::LocalGet(local_index),
        Operator::LocalSet { local_index } => OperandOp::LocalSet(local_index),
        Operator::LocalTee { local_index } => OperandOp::LocalTee(local_index),
        Operator::GlobalGet { global_index } => OperandOp::GlobalGet(global_index),
        Operator::GlobalSet { global_index } => OperandOp::GlobalSet(global_index),
        Operator::Call { function_index } => OperandOp::Call(function_index),
        Operator::Br { relative_depth } => OperandOp::Br(relative_depth),
        Operator::BrIf { relative_depth } => OperandOp::BrIf(relative_depth),
        _ => return None,
    })
}

/// The add/sub/mul operator read by read `k` of the body at
/// `data[start..end]`, if it is one.
pub uninterp spec fn op_arith(data: Seq<u8>, start: usize, end: usize, k: nat) -> Option<ArithOp>;

/// Tells apart the add/sub/mul `Operator` variants.
#[verifier::external_body]
pub(crate) fn arith_op<'a>(it: &OpItem<'a>) -> (r: Option<ArithOp>)
    ensures
        r == op_arith(it.at().0, it.at().1, it.at().2, it.at().3),
{
    Some(match it.op {
        Operator::I32Add => ArithOp::I32Add,
        Operator::I32Sub => ArithOp::I32Sub,
        Operator::I32Mul => ArithOp::I32Mul,
        Operator::I64Add => ArithOp::I64Add,
        Operator::I64Sub => ArithOp::I64Sub,
        Operator::I64Mul => ArithOp::I64Mul,
        Operator::F32Add => ArithOp::F32Add,
        Operator::F32Sub => ArithOp::F32Sub,
        Operator::F32Mul => ArithOp::F32Mul,
        Operator::F64Add => ArithOp::F64Add,
        Operator::F64Sub => ArithOp::F64Sub,
        Operator::F64Mul => ArithOp::F64Mul,
        _ => return None,
    })
}

/// The block-structure operator or `call_indirect` read by read `k` of the
/// body at `data[start..end]`, if it is one.
pub uninterp spec fn op_control(data: Seq<u8>, start: usize, end: usize, k: nat) -> Option<ControlOp>;

/// Tells apart the block-structure `Operator` variants and `call_indirect`.
#[verifier::external_body]
pub(crate) fn control_op<'a>(it: &OpItem<'a>) -> (r: Option<ControlOp>)
    ensures
        r == op_control(it.at().0, it.at().1, it.at().2, it.at().3),
{
    Some(match it.op {
        Operator::CallIndirect { .. } => ControlOp::CallIndirect,
        Operator::Block { .. } => ControlOp::Block,
        Operator::Loop { .. } => ControlOp::Loop,
        Operator::If { .. } => ControlOp::If,
        Operator::Else => ControlOp::Else,
        Operator::End => ControlOp::End,
        Operator::BrTable { .. } => ControlOp::BrTable,
        _ => return None,
    })
}

/// The miscellaneous operator without an operand read by read `k` of the
/// body at `data[start..end]`, if it is one.
pub uninterp spec fn op_misc(data: Seq<u8>, start: usize, end: usize, k: nat) -> Option<ControlOp>;

/// Tells apart the miscellaneous `Operator` variants without an operand.
#[verifier::external_body]
pub(crate) fn misc_op<'a>(it: &OpItem<'a>) -> (r: Option<ControlOp>)
    ensures
        r == op_misc(it.at().0, it.at().1, it.at().2, it.at().3),
{
    Some(match it.op {
        Operator::Return => ControlOp::Return,
        Operator::Drop => ControlOp::Drop,
        Operator::Select => ControlOp::Select,
        Operator::Nop => ControlOp::Nop,
        Operator::Unreachable => ControlOp::Unreachable,
        Operator::MemoryGrow { .. } => ControlOp::MemoryGrow,
        Operator::MemorySize { .. } => ControlOp::MemorySize,
        _ => return None,
    })
}

/// The `Debug` rendering of the operator read by read `k` of the body at
/// `data[start..end]`.
pub uninterp spec fn op_debug(data: Seq<u8>, start: usize, end: usize, k: nat) -> Seq<char>;

/// The `Debug` rendering of an operator (`format!("{:?}", op)`).
#[verifier::external_body]
pub(crate) fn operator_debug<'a>(it: &OpItem<'a>) -> (s: String)
    ensures
        s@ == op_debug(it.at().0, it.at().1, it.at().2, it.at().3),
{
    format!("{:?}", it.op)
}

/// The locals declarations of the function body stored at `data[start..end]`,
/// read from a fresh `FunctionBody::new(BinaryReader::new(&data[start..end], start))`,
/// with the number of reads made so far.
pub struct BodyLocals<'a> {
    reader: LocalsReader<'a>,
    at: Ghost<(Seq<u8>, usize, usize)>,
    reads: Ghost<nat>,
}

impl<'a> BodyLocals<'a> {
    /// The bytes and the body range read.
    pub closed spec fn body(self) -> (Seq<u8>, usize, usize) {
        self.at@
    }

    /// The number of reads made so far.
    pub closed spec fn reads(self) -> nat {
        self.reads@
    }
}

/// Whether `FunctionBody::get_locals_reader` succeeds on the body stored at
/// `data[start..end]`.
pub uninterp spec fn locals_open(data: Seq<u8>, start: usize, end: usize) -> bool;

/// `FunctionBody::get_locals_reader` on the body stored at
/// `data[start..end]`, with `start` as its offset in the module.
#[verifier::external_body]
pub(crate) fn open_body_locals<'a>(data: &'a [u8], start: usize, end: usize) -> (r: Result<BodyLocals<'a>, BinaryReaderError>)
    requires
        start <= end <= data@.len(),
    ensures
        r is Ok <==> locals_open(data@, start, end),
        r matches Ok(c) ==> c.body() == (data@, start, end) && c.reads() == 0,
{
    let body = FunctionBody::new(BinaryReader::new(&data[start..end], start as u64));
    let reader = body.get_locals_reader()?;
    Ok(BodyLocals { reader, at: Ghost((data@, start, end)), reads: Ghost(0) })
}

/// The number of locals declarations of the body at `data[start..end]`
/// (`LocalsReader::get_count`).
pub uninterp spec fn locals_declared(data: Seq<u8>, start: usize, end: usize) -> u32;

/// `LocalsReader::get_count`: the number of local declarations.
#[verifier::external_body]
pub(crate) fn locals_count<'a>(c: &BodyLocals<'a>) -> (n: u32)
    ensures
        n == locals_declared(c.body().0, c.body().1, c.body().2),
{
    c.reader.get_count()
}

/// What the read numbered `k` (from 0) of a fresh locals reader of the body
/// at `data[start..end]` gives (`LocalsReader::read`): `Err` on a read
/// error, else the count of the declaration and the `Debug` rendering of
/// its value type.
pub uninterp spec fn local_read(data: Seq<u8>, start: usize, end: usize, k: nat) -> Result<(u32, Seq<char>), ()>;

/// `LocalsReader::read`: the count of one declaration and the `Debug`
/// rendering of its value type.
#[verifier::external_body]
pub(crate) fn read_local<'a>(c: &mut BodyLocals<'a>) -> (d: Result<(u32, String), BinaryReaderError>)
    ensures
        final(c).body() == old(c).body(),
        final(c).reads() == old(c).reads() + 1,
        local_read(old(c).body().0, old(c).body().1, old(c).body().2, old(c).reads()) == match d {
            Ok((n, t)) => Ok((n, t@)),
            Err(_) => Err(()),
        },
{
    c.reads = Ghost(c.reads@ + 1);
    let (count, ty) = c.reader.read()?;
    Ok((count, format!("{:?}", ty)))
}

} // verus!
