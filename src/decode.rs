//! Decoding of a whole document: text to lines, lines to sections, sections
//! to the model.
use crate::idf30::{
    definitions_view, placements_view, ComponentDefinition, ComponentPlacement, DefinitionView,
    Error, FileType, FileTypeView, Header, HeaderView, Idf30, Idf30View, IdfSection,
    PlacementView, SectionView,
};
use crate::lexer::{chars_of, lines_of, tokenize};
use crate::records::{
    board_unit_refused, definition_of, generic_section_of, header_of, version_refused, parse_component_definition,
    parse_generic_section, parse_header, parse_placement_section, placement_section, text_is,
};
use crate::sections::{group_sections, raw_sections_view, sections_of, RawSection, RawSectionView};
use vstd::prelude::*;

verus! {

/// What the sections of `secs` from section `k` on add to the placements
/// `pl`, the kept sections `os` and the component definitions `cd`.
pub open spec fn body_from(
    secs: Seq<RawSectionView>,
    k: int,
    pl: Seq<PlacementView>,
    os: Seq<SectionView>,
    cd: Seq<DefinitionView>,
) -> Result<(Seq<PlacementView>, Seq<SectionView>, Seq<DefinitionView>), Error>
    decreases secs.len() - k,
{
    if k < 0 || k >= secs.len() {
        Ok((pl, os, cd))
    } else if secs[k].name == "PLACEMENT"@ {
        match placement_section(secs[k].records) {
            Ok(p) => body_from(secs, k + 1, pl + p, os, cd),
            Err(e) => Err(e),
        }
    } else if secs[k].name == "ELECTRICAL"@ {
        match definition_of(secs[k].records) {
            Ok(d) => body_from(secs, k + 1, pl, os, cd.push(d)),
            Err(e) => Err(e),
        }
    } else {
        match generic_section_of(secs[k]) {
            Ok(g) => body_from(secs, k + 1, pl, os.push(g), cd),
            Err(e) => Err(e),
        }
    }
}

/// The header `h` of a document whose `ELECTRICAL` sections define `cd`:
/// a library file lists them, other files do not keep them.
pub open spec fn with_components(h: HeaderView, cd: Seq<DefinitionView>) -> HeaderView {
    if h.ty is LibraryFile {
        HeaderView { ty: FileTypeView::LibraryFile { components: cd }, ..h }
    } else {
        h
    }
}

/// The document that the sections `secs` make up.
pub open spec fn document_of(secs: Seq<RawSectionView>) -> Result<Idf30View, Error> {
    if secs.len() == 0 || secs[0].name != "HEADER"@ {
        Err(Error::MissingHeader)
    } else {
        match header_of(secs[0].records) {
            Err(e) => Err(e),
            Ok(h) => match body_from(secs, 1, seq![], seq![], seq![]) {
                Err(e) => Err(e),
                Ok(b) => Ok(
                    Idf30View { header: with_components(h, b.2), placement: b.0, other_sections: b.1 },
                ),
            },
        }
    }
}

/// The document that the text `s` holds, or why it holds none.
pub open spec fn decode(s: Seq<char>) -> Result<Idf30View, Error> {
    match lines_of(s) {
        Err(e) => Err(e),
        Ok(lines) => match sections_of(lines) {
            Err(e) => Err(e),
            Ok(secs) => document_of(secs),
        },
    }
}

fn decode_document(secs: &Vec<RawSection>) -> (r: Result<Idf30, Error>)
    ensures
        match r {
            Ok(d) => document_of(raw_sections_view(secs@)) == Ok::<Idf30View, Error>(d@),
            Err(e) => document_of(raw_sections_view(secs@)) == Err::<Idf30View, Error>(e),
        },
{
    let ghost sv = raw_sections_view(secs@);
    if secs.len() == 0 || !text_is(&secs[0].name, "HEADER") {
        return Err(Error::MissingHeader);
    }
    assert(sv[0] == secs@[0]@);
    let header = match parse_header(&secs[0].records) {
        Ok(h) => h,
        Err(e) => return Err(e),
    };
    let mut placement: Vec<ComponentPlacement> = Vec::new();
    let mut other_sections: Vec<IdfSection> = Vec::new();
    let mut components: Vec<ComponentDefinition> = Vec::new();
    let ghost osv = |s: IdfSection| s@;
    assert(placements_view(placement@) =~= Seq::<PlacementView>::empty());
    assert(other_sections@.map_values(osv) =~= Seq::<SectionView>::empty());
    assert(definitions_view(components@) =~= Seq::<DefinitionView>::empty());
    let mut k: usize = 1;
    while k < secs.len()
        invariant
            sv == raw_sections_view(secs@),
            1 <= k <= sv.len(),
            sv[0].name == "HEADER"@,
            header_of(sv[0].records) == Ok::<HeaderView, Error>(header@),
            osv == (|s: IdfSection| s@),
            body_from(sv, 1, seq![], seq![], seq![]) == body_from(
                sv,
                k as int,
                placements_view(placement@),
                other_sections@.map_values(osv),
                definitions_view(components@),
            ),
        decreases sv.len() - k,
    {
        let sec = &secs[k];
        assert(sv[k as int] == sec@);
        if text_is(&sec.name, "PLACEMENT") {
            let mut more = match parse_placement_section(&sec.records) {
                Ok(v) => v,
                Err(e) => return Err(e),
            };
            let ghost before = placement@;
            let ghost added = more@;
            placement.append(&mut more);
            assert(placements_view(placement@) =~= placements_view(before) + placements_view(added));
        } else if text_is(&sec.name, "ELECTRICAL") {
            let d = match parse_component_definition(&sec.records) {
                Ok(d) => d,
                Err(e) => return Err(e),
            };
            let ghost before = components@;
            components.push(d);
            assert(definitions_view(components@) =~= definitions_view(before).push(d@));
        } else {
            let g = match parse_generic_section(sec) {
                Ok(g) => g,
                Err(e) => return Err(e),
            };
            let ghost before = other_sections@;
            other_sections.push(g);
            assert(other_sections@.map_values(osv) =~= before.map_values(osv).push(g@));
        }
        k = k + 1;
    }
    let header = match header.ty {
        FileType::LibraryFile { .. } => Header {
            ty: FileType::LibraryFile { components },
            source: header.source,
            date: header.date,
            board_file_version: header.board_file_version,
        },
        _ => header,
    };
    Ok(Idf30 { header, placement, other_sections })
}

impl Idf30 {
    /// Decodes an IDF 3.0 document.
    pub fn parse(file: &str) -> (r: Result<Idf30, Error>)
        requires
            file@.len() < usize::MAX,
        ensures
            match r {
                Ok(d) => decode(file@) == Ok::<Idf30View, Error>(d@),
                Err(e) => decode(file@) == Err::<Idf30View, Error>(e),
            },
    {
        let chars = chars_of(file);
        let lines = match tokenize(&chars) {
            Ok(l) => l,
            Err(e) => return Err(e),
        };
        let secs = match group_sections(lines) {
            Ok(s) => s,
            Err(e) => return Err(e),
        };
        decode_document(&secs)
    }
}

/// A document whose header gives a version token other than `3.0` is
/// refused as an unsupported version, whatever its file type token and
/// whatever follows.
pub proof fn lemma_version_refused(secs: Seq<RawSectionView>)
    requires
        secs.len() > 0,
        secs[0].name == "HEADER"@,
        version_refused(secs[0].records),
    ensures
        document_of(secs) == Err::<Idf30View, Error>(Error::UnsupportedVersion),
{
    reveal(header_of);
}

/// A board or panel document whose header gives a unit token other than
/// `MM` or `THOU` is refused for its unit.
pub proof fn lemma_board_unit_refused(secs: Seq<RawSectionView>)
    requires
        secs.len() > 0,
        secs[0].name == "HEADER"@,
        board_unit_refused(secs[0].records),
    ensures
        document_of(secs) == Err::<Idf30View, Error>(Error::WrongUnit),
{
    reveal(header_of);
    reveal_strlit("LIBRARY_FILE");
    reveal_strlit("BOARD_FILE");
    reveal_strlit("PANEL_FILE");
    assert("LIBRARY_FILE"@.len() != "BOARD_FILE"@.len());
    assert("LIBRARY_FILE"@.len() != "PANEL_FILE"@.len());
}

} // verus!
