//! Which dynamic loader an ELF binary names: the `.interp` section, read
//! through the `elf` crate.

use elf::endian::AnyEndian;
use elf::section::SectionHeader;
use elf::ElfBytes;
use elf::file::Class;
use elf::ParseError;
use vstd::prelude::*;
use vstd::utf8::{decode_utf8, valid_utf8};

use crate::Error;

verus! {

/// The `elf` crate's parse of an image. Verus does not take a declaration
/// of `elf::ElfBytes`, whose parameter is bound by a trait of that crate, so
/// the value is held here, out of Verus's sight.
#[verifier::external_body]
struct Parsed<'a> {
    elf: ElfBytes<'a, AnyEndian>,
}

/// An ELF image, with the `elf` crate's parse of it.
pub struct ElfImage<'a> {
    data: &'a [u8],
    parsed: Parsed<'a>,
}

/// A section header that the `elf` crate found in `data` by the name `name`.
pub struct FoundSection<'a> {
    data: &'a [u8],
    name: String,
    header: SectionHeader,
}

#[verifier::external_type_specification]
#[verifier::external_body]
pub struct ExSectionHeader(SectionHeader);

#[verifier::external_type_specification]
#[verifier::external_body]
pub struct ExParseError(ParseError);

/// Whether `elf::ElfBytes::minimal_parse` accepts the image.
pub uninterp spec fn elf_parses(data: Seq<u8>) -> bool;

/// The class that `minimal_parse` reads from the image's header.
pub uninterp spec fn elf_class_named(data: Seq<u8>) -> ElfClass;

/// The ELF type that `minimal_parse` reads from the image's header.
pub uninterp spec fn elf_type_named(data: Seq<u8>) -> u16;

/// What `ElfBytes::section_header_by_name` finds in the image for the name:
/// `None` where it cannot read the section table or its names, else whether
/// a section of that name is there.
pub uninterp spec fn section_lookup_named(data: Seq<u8>, name: Seq<char>) -> Option<bool>;

/// What `ElfBytes::section_data` reads for the section header found by the
/// name: `None` where the header points outside the image.
pub uninterp spec fn section_data_named(data: Seq<u8>, name: Seq<char>) -> Option<Seq<u8>>;

/// Relies on `elf::ElfBytes::minimal_parse`: reads the file header and
/// locates the section and segment tables of an ELF image in memory; the
/// outcome depends on the image's bytes alone.
#[verifier::external_body]
fn parse_elf(data: &[u8]) -> (r: Result<ElfImage<'_>, ParseError>)
    ensures
        r is Ok <==> elf_parses(data@),
        r is Ok ==> r->Ok_0.data@ == data@,
{
    ElfBytes::<AnyEndian>::minimal_parse(data).map(|elf| ElfImage { data, parsed: Parsed { elf } })
}

/// Relies on the `class` field of the file header that `minimal_parse` read.
#[verifier::external_body]
fn class_of(image: &ElfImage) -> (r: ElfClass)
    ensures
        r == elf_class_named(image.data@),
{
    match image.parsed.elf.ehdr.class {
        Class::ELF32 => ElfClass::Elf32,
        Class::ELF64 => ElfClass::Elf64,
    }
}

/// Relies on the `e_type` field of the file header that `minimal_parse` read.
#[verifier::external_body]
fn type_of(image: &ElfImage) -> (r: u16)
    ensures
        r == elf_type_named(image.data@),
{
    image.parsed.elf.ehdr.e_type
}

/// Relies on `elf::ElfBytes::section_header_by_name`: the header of the
/// first section of that name, if the image has one; an error where the
/// section table or its string table cannot be read.
#[verifier::external_body]
fn section_header_named<'a>(image: &ElfImage<'a>, name: &str) -> (r: Result<Option<FoundSection<'a>>, ParseError>)
    ensures
        match r {
            Err(_) => section_lookup_named(image.data@, name@) is None,
            Ok(None) => section_lookup_named(image.data@, name@) == Some(false),
            Ok(Some(s)) => section_lookup_named(image.data@, name@) == Some(true) && s.data@
                == image.data@ && s.name@ == name@,
        },
{
    let found = image.parsed.elf.section_header_by_name(name)?;
    Ok(found.map(|header| FoundSection { data: image.data, name: name.to_owned(), header }))
}

/// Relies on `elf::ElfBytes::section_data`: the bytes that a section header
/// points at in the image (raw, also where the section is compressed); an
/// error where they lie outside it.
#[verifier::external_body]
fn section_contents<'a>(image: &ElfImage<'a>, section: &FoundSection<'a>) -> (r: Result<&'a [u8], ParseError>)
    requires
        section.data@ == image.data@,
    ensures
        match r {
            Err(_) => section_data_named(section.data@, section.name@) is None,
            Ok(b) => section_data_named(section.data@, section.name@) == Some(b@),
        },
{
    image.parsed.elf.section_data(&section.header).map(|(data, _compression)| data)
}

/// Relies on `std::str::from_utf8`: the bytes as text where they are valid
/// UTF-8, and nothing where they are not.
#[verifier::external_body]
pub(crate) fn utf8_text(bytes: &[u8]) -> (r: Option<&str>)
    ensures
        r is Some <==> valid_utf8(bytes@),
        r is Some ==> r->0@ == decode_utf8(bytes@),
{
    std::str::from_utf8(bytes).ok()
}

/// The ELF type of a shared object.
pub const ET_DYN: u16 = 3;

/// The class of an ELF file: 32 or 64 bit.
#[derive(Clone, Copy, Debug, PartialEq, Eq, Structural)]
pub enum ElfClass {
    Elf32,
    Elf64,
}

/// The loader of a binary, as far as the binary itself says.
#[derive(Debug, PartialEq, Eq)]
pub enum Loader {
    /// The path that the binary names.
    Path(String),
    /// None is named, but the binary is a shared object: a loader is looked
    /// for where loaders of this class are installed.
    Search(ElfClass),
    /// The binary needs no loader (it is linked statically), or names a
    /// script interpreter (`#!`) rather than a loader.
    Absent,
}

/// `s` without its trailing NUL characters.
pub open spec fn trim_nul(s: Seq<char>) -> Seq<char>
    decreases s.len(),
{
    if s.len() > 0 && s.last() == '\0' {
        trim_nul(s.drop_last())
    } else {
        s
    }
}

pub open spec fn is_shebang(s: Seq<char>) -> bool {
    s.len() >= 2 && s[0] == '#' && s[1] == '!'
}

/// The loader of a binary that names none.
pub open spec fn unnamed_loader(class: ElfClass, elf_type: u16) -> Loader {
    if elf_type == ET_DYN {
        Loader::Search(class)
    } else {
        Loader::Absent
    }
}

/// `r` is the loader of a binary of this class and type whose `.interp`
/// section holds `section` (`None`: it has no such section). The section is
/// text ending in NULs: a loader's path, a script's `#!` line, or nothing.
pub open spec fn loader_is(r: Result<Loader, Error>, class: ElfClass, elf_type: u16, section: Option<Seq<u8>>) -> bool {
    match section {
        None => r == Ok::<Loader, Error>(unnamed_loader(class, elf_type)),
        Some(b) => if !valid_utf8(b) {
            r == Err::<Loader, Error>(Error::MalformedElf)
        } else {
            let t = trim_nul(decode_utf8(b));
            if is_shebang(t) {
                r == Ok::<Loader, Error>(Loader::Absent)
            } else if t.len() > 0 {
                match r {
                    Ok(Loader::Path(p)) => p@ == t,
                    _ => false,
                }
            } else {
                r == Ok::<Loader, Error>(unnamed_loader(class, elf_type))
            }
        },
    }
}

pub open spec fn bytes_of(section: Option<&[u8]>) -> Option<Seq<u8>> {
    match section {
        Some(b) => Some(b@),
        None => None,
    }
}

/// The loader of a binary of class `class` and ELF type `elf_type` whose
/// `.interp` section holds `section`, or that has none (`None`).
pub fn loader_choice(class: ElfClass, elf_type: u16, section: Option<&[u8]>) -> (r: Result<Loader, Error>)
    ensures
        loader_is(r, class, elf_type, bytes_of(section)),
{
    let bytes = match section {
        None => {
            return Ok(if elf_type == ET_DYN { Loader::Search(class) } else { Loader::Absent });
        },
        Some(b) => b,
    };
    let text = match utf8_text(bytes) {
        None => {
            return Err(Error::MalformedElf);
        },
        Some(t) => t,
    };
    let n = text.unicode_len();
    let mut j: usize = n;
    proof {
        assert(text@.subrange(0, n as int) =~= text@);
    }
    while j > 0 && text.get_char(j - 1) == '\0'
        invariant
            j <= n == text@.len(),
            trim_nul(text@) == trim_nul(text@.subrange(0, j as int)),
        decreases j,
    {
        assert(text@.subrange(0, j as int).drop_last() =~= text@.subrange(0, j - 1));
        j = j - 1;
    }
    let trimmed = text.substring_char(0, j);
    assert(trimmed@ == trim_nul(text@));
    if j >= 2 && trimmed.get_char(0) == '#' && trimmed.get_char(1) == '!' {
        return Ok(Loader::Absent);
    }
    if j > 0 {
        return Ok(Loader::Path(trimmed.to_owned()));
    }
    Ok(if elf_type == ET_DYN { Loader::Search(class) } else { Loader::Absent })
}

/// `r` is the loader of the ELF image `data`, as the `elf` crate reads it:
/// an image that it cannot parse, or whose section table it cannot read, is
/// `MalformedElf`; a `.interp` section whose bytes lie outside the image is
/// `InconsistentElf`; otherwise the class, the type and the `.interp` section
/// decide as `loader_is` says.
pub open spec fn elf_loader_is(r: Result<Loader, Error>, data: Seq<u8>) -> bool {
    let class = elf_class_named(data);
    let elf_type = elf_type_named(data);
    if !elf_parses(data) {
        r == Err::<Loader, Error>(Error::MalformedElf)
    } else {
        match section_lookup_named(data, ".interp"@) {
            None => r == Err::<Loader, Error>(Error::MalformedElf),
            Some(false) => loader_is(r, class, elf_type, None),
            Some(true) => match section_data_named(data, ".interp"@) {
                None => r == Err::<Loader, Error>(Error::InconsistentElf),
                Some(b) => loader_is(r, class, elf_type, Some(b)),
            },
        }
    }
}

/// The loader that the ELF image `data` names, read through the `elf` crate
/// and chosen by `loader_choice`.
pub fn elf_loader(data: &[u8]) -> (r: Result<Loader, Error>)
    ensures
        elf_loader_is(r, data@),
{
    let image = match parse_elf(data) {
        Ok(image) => image,
        Err(_) => {
            return Err(Error::MalformedElf);
        },
    };
    let class = class_of(&image);
    let elf_type = type_of(&image);
    let found = match section_header_named(&image, ".interp") {
        Ok(found) => found,
        Err(_) => {
            return Err(Error::MalformedElf);
        },
    };
    match found {
        None => loader_choice(class, elf_type, None),
        Some(section) => match section_contents(&image, &section) {
            Ok(bytes) => loader_choice(class, elf_type, Some(bytes)),
            Err(_) => Err(Error::InconsistentElf),
        },
    }
}

/// A statically linked binary needs no loader: for an image that parses,
/// has no `.interp` section and is no shared object, the loader is `Absent`,
/// so nothing is run and nothing is listed.
pub proof fn lemma_static_binary_has_no_loader(data: Seq<u8>, r: Result<Loader, Error>)
    requires
        elf_parses(data),
        section_lookup_named(data, ".interp"@) == Some(false),
        elf_type_named(data) != ET_DYN,
        elf_loader_is(r, data),
    ensures
        r == Ok::<Loader, Error>(Loader::Absent),
{
}

/// Where loaders of this class are installed.
pub open spec fn class_pattern(class: ElfClass) -> Seq<char> {
    match class {
        ElfClass::Elf32 => "/lib32/ld-*.so.*"@,
        ElfClass::Elf64 => "/lib64/ld-*.so.*"@,
    }
}

/// Where loaders of any class are installed.
pub open spec fn generic_pattern() -> Seq<char> {
    "/lib/ld-*.so.*"@
}

/// The glob patterns to search, in order, for a loader of class `class`:
/// the place of that class, then the generic place.
pub fn ld_so_patterns(class: ElfClass) -> (r: Vec<String>)
    ensures
        r@.len() == 2,
        r@[0]@ == class_pattern(class),
        r@[1]@ == generic_pattern(),
{
    let specific = match class {
        ElfClass::Elf32 => "/lib32/ld-*.so.*".to_owned(),
        ElfClass::Elf64 => "/lib64/ld-*.so.*".to_owned(),
    };
    vec![specific, "/lib/ld-*.so.*".to_owned()]
}

/// The loader that the search finds, from the paths that matched each
/// pattern of `ld_so_patterns` in order: the first match of the first
/// pattern that matched anything, or none.
pub fn ld_so(matches: &Vec<Vec<String>>) -> (r: Option<String>)
    ensures
        match r {
            Some(p) => exists|k: int|
                0 <= k < matches@.len() && matches@[k]@.len() > 0 && p@ == matches@[k]@[0]@
                    && forall|j: int| 0 <= j < k ==> (#[trigger] matches@[j])@.len() == 0,
            None => forall|k: int| 0 <= k < matches@.len() ==> (#[trigger] matches@[k])@.len() == 0,
        },
{
    let mut i: usize = 0;
    while i < matches.len()
        invariant
            i <= matches@.len(),
            forall|j: int| 0 <= j < i ==> (#[trigger] matches@[j])@.len() == 0,
        decreases matches.len() - i,
    {
        if matches[i].len() > 0 {
            return Some(matches[i][0].clone());
        }
        i = i + 1;
    }
    None
}

} // verus!
