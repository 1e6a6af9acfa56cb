//! The native version-information block of a Windows dynamic library.
//!
//! `plan` lays out every field of the block from a version and the product's
//! names; `fill_resource` writes that layout into a `tauri_winres` resource.
//! Building the resource, reading the clock for the copyright year and
//! compiling stay with the build script, which alone knows whether its target
//! can carry such a block at all.
use vstd::prelude::*;
use tauri_winres::{VersionInfo, WindowsResource};
use crate::version::{Version, dotted, ascii_chars, decimal, push_decimal, append_ascii};

verus! {

/// US English.
pub const ENGLISH_US: u16 = 0x0409;

/// The flag bits that the block defines.
pub const VS_FFI_FILEFLAGSMASK: u64 = 0x0000_003F;

/// Windows NT, 32-bit windowing.
pub const VOS_NT_WINDOWS32: u64 = 0x0004_0004;

/// A dynamic library.
pub const VFT_DLL: u64 = 0x0000_0002;

/// No particular subtype.
pub const VFT2_UNKNOWN: u64 = 0x0000_0000;

#[verifier::external_type_specification]
#[verifier::external_body]
pub struct ExWindowsResource(WindowsResource);

/// The numeric fields of the block.
#[derive(Debug, Copy, Clone, PartialEq, Eq, Structural)]
pub enum InfoField {
    FileVersion,
    ProductVersion,
    FileFlagsMask,
    FileFlags,
    FileOs,
    FileType,
    FileSubtype,
}

/// The string table of a resource, by property name.
pub uninterp spec fn resource_strings(r: WindowsResource) -> Map<Seq<char>, Seq<char>>;

/// The numeric fields of a resource.
pub uninterp spec fn resource_numbers(r: WindowsResource) -> Map<InfoField, u64>;

/// The language of a resource.
pub uninterp spec fn resource_language(r: WindowsResource) -> u16;

/// Relies on `WindowsResource::set`, which inserts one entry into the string table.
#[verifier::external_body]
fn set_string(res: &mut WindowsResource, name: &str, value: &str)
    ensures
        resource_strings(*final(res)) == resource_strings(*old(res)).insert(name@, value@),
        resource_numbers(*final(res)) == resource_numbers(*old(res)),
        resource_language(*final(res)) == resource_language(*old(res)),
{
    res.set(name, value);
}

/// Relies on `WindowsResource::set_version_info`, which inserts one numeric field.
#[verifier::external_body]
fn set_number(res: &mut WindowsResource, field: InfoField, value: u64)
    ensures
        resource_numbers(*final(res)) == resource_numbers(*old(res)).insert(field, value),
        resource_strings(*final(res)) == resource_strings(*old(res)),
        resource_language(*final(res)) == resource_language(*old(res)),
{
    let f = match field {
        InfoField::FileVersion => VersionInfo::FILEVERSION,
        InfoField::ProductVersion => VersionInfo::PRODUCTVERSION,
        InfoField::FileFlagsMask => VersionInfo::FILEFLAGSMASK,
        InfoField::FileFlags => VersionInfo::FILEFLAGS,
        InfoField::FileOs => VersionInfo::FILEOS,
        InfoField::FileType => VersionInfo::FILETYPE,
        InfoField::FileSubtype => VersionInfo::FILESUBTYPE,
    };
    res.set_version_info(f, value);
}

/// Relies on `WindowsResource::set_language`, which sets the language alone.
#[verifier::external_body]
fn set_language(res: &mut WindowsResource, language: u16)
    ensures
        resource_language(*final(res)) == language,
        resource_strings(*final(res)) == resource_strings(*old(res)),
        resource_numbers(*final(res)) == resource_numbers(*old(res)),
{
    res.set_language(language);
}

/// Every field of a version-information block, as plain values.
#[derive(Debug)]
pub struct ResourceMetadata {
    pub file_version: u64,
    pub product_version: u64,
    pub flags_mask: u64,
    pub flags: u64,
    pub os: u64,
    pub file_type: u64,
    pub file_subtype: u64,
    pub language: u16,
    pub company_name: String,
    pub legal_copyright: String,
    pub product_name: String,
    pub file_description: String,
    pub internal_name: String,
    pub original_filename: String,
    pub product_version_text: String,
    pub file_version_text: String,
}

/// The company that the block names.
pub open spec fn author_text() -> Seq<char> {
    "Vadim Piven <vadim@piven.tech> (https://piven.tech)"@
}

/// A version packed in four 16-bit words, the last one zero.
pub open spec fn packed(v: Version) -> u64 {
    (v.major << 48u64) | (v.minor << 32u64) | (v.patch << 16u64)
}

/// A year in decimal, with a minus sign before the years before year zero.
pub open spec fn year_text(year: i32) -> Seq<u8> {
    if year < 0 {
        seq![45u8] + decimal((-year) as nat)
    } else {
        decimal(year as nat)
    }
}

/// The copyright line for a year.
pub open spec fn copyright_text(year: i32) -> Seq<char> {
    "Copyright © "@ + ascii_chars(year_text(year)) + " "@ + author_text()
}

/// The four-part version text `major.minor.patch.0`.
pub open spec fn four_part(v: Version) -> Seq<char> {
    ascii_chars(dotted(v) + seq![46u8, 48u8])
}

/// The block laid out for `v`, the product `product`, the package
/// `internal_name`, the file `filename` and the year `year`.
pub open spec fn laid_out(
    m: ResourceMetadata,
    product: Seq<char>,
    v: Version,
    filename: Seq<char>,
    internal_name: Seq<char>,
    year: i32,
) -> bool {
    &&& m.file_version == packed(v)
    &&& m.product_version == packed(v)
    &&& m.flags_mask == VS_FFI_FILEFLAGSMASK
    &&& m.flags == 0
    &&& m.os == VOS_NT_WINDOWS32
    &&& m.file_type == VFT_DLL
    &&& m.file_subtype == VFT2_UNKNOWN
    &&& m.language == ENGLISH_US
    &&& m.company_name@ == author_text()
    &&& m.legal_copyright@ == copyright_text(year)
    &&& m.product_name@ == product
    &&& m.file_description@ == product
    &&& m.internal_name@ == internal_name
    &&& m.original_filename@ == filename
    &&& m.product_version_text@ == four_part(v)
    &&& m.file_version_text@ == four_part(v)
}

/// The version packed as `major << 48 | minor << 32 | patch << 16`.
pub fn packed_version(v: &Version) -> (r: u64)
    ensures
        r == packed(*v),
{
    (v.major << 48u64) | (v.minor << 32u64) | (v.patch << 16u64)
}

/// Where each counter fits in 16 bits, the packed version holds them as
/// base-65536 digits, with a zero in the lowest place.
pub proof fn lemma_packed_digits(v: Version)
    requires
        v.major < 0x10000,
        v.minor < 0x10000,
        v.patch < 0x10000,
    ensures
        packed(v) as int == v.major * 0x1_0000_0000_0000 + v.minor * 0x1_0000_0000 + v.patch
            * 0x1_0000,
{
    let a = v.major;
    let b = v.minor;
    let c = v.patch;
    assert((a << 48u64) | (b << 32u64) | (c << 16u64) == (a << 48u64) + (b << 32u64) + (c
        << 16u64)) by (bit_vector)
        requires
            a < 0x10000,
            b < 0x10000,
            c < 0x10000,
    ;
    assert(a << 48u64 == a * 0x1_0000_0000_0000) by (bit_vector)
        requires
            a < 0x10000,
    ;
    assert(b << 32u64 == b * 0x1_0000_0000) by (bit_vector)
        requires
            b < 0x10000,
    ;
    assert(c << 16u64 == c * 0x1_0000) by (bit_vector)
        requires
            c < 0x10000,
    ;
}

/// The four-part version text `major.minor.patch.0`.
pub fn four_part_text(v: &Version) -> (r: String)
    ensures
        r@ == four_part(*v),
{
    let mut bytes = v.dotted_bytes();
    bytes.push(46u8);
    bytes.push(48u8);
    proof {
        assert(bytes@ =~= dotted(*v) + seq![46u8, 48u8]);
    }
    let mut out = String::new();
    append_ascii(&mut out, &bytes);
    out
}

/// The copyright line `Copyright © {year} {author}`.
pub fn copyright(year: i32) -> (r: String)
    ensures
        r@ == copyright_text(year),
{
    let mut digits: Vec<u8> = Vec::new();
    if year < 0 {
        digits.push(45u8);
        push_decimal(&mut digits, (-(year as i64)) as u64);
    } else {
        push_decimal(&mut digits, year as u64);
    }
    proof {
        assert(digits@ =~= year_text(year));
    }
    let mut out = String::new();
    out.append("Copyright © ");
    append_ascii(&mut out, &digits);
    out.append(" ");
    out.append(author());
    out
}

/// The company that the block names.
pub fn author() -> (r: &'static str)
    ensures
        r@ == author_text(),
{
    "Vadim Piven <vadim@piven.tech> (https://piven.tech)"
}

/// Lays out the block for a product, a version, the output file name, the
/// package name and a year.
pub fn resource_metadata(
    product: &str,
    version: &Version,
    filename: &str,
    internal_name: &str,
    year: i32,
) -> (r: ResourceMetadata)
    ensures
        laid_out(r, product@, *version, filename@, internal_name@, year),
{
    let packed = packed_version(version);
    ResourceMetadata {
        file_version: packed,
        product_version: packed,
        flags_mask: VS_FFI_FILEFLAGSMASK,
        flags: 0,
        os: VOS_NT_WINDOWS32,
        file_type: VFT_DLL,
        file_subtype: VFT2_UNKNOWN,
        language: ENGLISH_US,
        company_name: author().to_owned(),
        legal_copyright: copyright(year),
        product_name: product.to_owned(),
        file_description: product.to_owned(),
        internal_name: internal_name.to_owned(),
        original_filename: filename.to_owned(),
        product_version_text: four_part_text(version),
        file_version_text: four_part_text(version),
    }
}

/// Decides what to embed: nothing where the target cannot carry a version
/// block, else the block laid out for `year`, the current year of the build.
pub fn plan(
    target_embeds: bool,
    product: &str,
    version: &Version,
    filename: &str,
    internal_name: &str,
    year: i32,
) -> (r: Option<ResourceMetadata>)
    ensures
        r is Some <==> target_embeds,
        r matches Some(m) ==> laid_out(m, product@, *version, filename@, internal_name@, year),
{
    if !target_embeds {
        return None;
    }
    Some(resource_metadata(product, version, filename, internal_name, year))
}

/// The string table that `fill_resource` writes.
pub open spec fn filled_strings(
    before: Map<Seq<char>, Seq<char>>,
    m: ResourceMetadata,
) -> Map<Seq<char>, Seq<char>> {
    before.insert("CompanyName"@, m.company_name@).insert(
        "LegalCopyright"@,
        m.legal_copyright@,
    ).insert("ProductName"@, m.product_name@).insert(
        "FileDescription"@,
        m.file_description@,
    ).insert("InternalName"@, m.internal_name@).insert(
        "OriginalFilename"@,
        m.original_filename@,
    ).insert("ProductVersion"@, m.product_version_text@).insert(
        "FileVersion"@,
        m.file_version_text@,
    )
}

/// The numeric fields that `fill_resource` writes.
pub open spec fn filled_numbers(before: Map<InfoField, u64>, m: ResourceMetadata) -> Map<
    InfoField,
    u64,
> {
    before.insert(InfoField::FileVersion, m.file_version).insert(
        InfoField::ProductVersion,
        m.product_version,
    ).insert(InfoField::FileFlagsMask, m.flags_mask).insert(InfoField::FileFlags, m.flags).insert(
        InfoField::FileOs,
        m.os,
    ).insert(InfoField::FileType, m.file_type).insert(InfoField::FileSubtype, m.file_subtype)
}

/// Writes every field of `m` into the resource.
pub fn fill_resource(res: &mut WindowsResource, m: &ResourceMetadata)
    ensures
        resource_language(*final(res)) == m.language,
        resource_numbers(*final(res)) == filled_numbers(resource_numbers(*old(res)), *m),
        resource_strings(*final(res)) == filled_strings(resource_strings(*old(res)), *m),
{
    set_language(res, m.language);
    set_number(res, InfoField::FileVersion, m.file_version);
    set_number(res, InfoField::ProductVersion, m.product_version);
    set_number(res, InfoField::FileFlagsMask, m.flags_mask);
    set_number(res, InfoField::FileFlags, m.flags);
    set_number(res, InfoField::FileOs, m.os);
    set_number(res, InfoField::FileType, m.file_type);
    set_number(res, InfoField::FileSubtype, m.file_subtype);
    set_string(res, "CompanyName", m.company_name.as_str());
    set_string(res, "LegalCopyright", m.legal_copyright.as_str());
    set_string(res, "ProductName", m.product_name.as_str());
    set_string(res, "FileDescription", m.file_description.as_str());
    set_string(res, "InternalName", m.internal_name.as_str());
    set_string(res, "OriginalFilename", m.original_filename.as_str());
    set_string(res, "ProductVersion", m.product_version_text.as_str());
    set_string(res, "FileVersion", m.file_version_text.as_str());
}

} // verus!
