//! The parameters of texture compression and where compressed textures are
//! kept on disk.
use vstd::prelude::*;
use vstd::string::StringExecFns;

verus! {

/// Compresses and transcodes textures; holds no state of its own.
pub struct TextureCompressor(());

/// What to compress: raw pixels with their size and layout, and how.
pub struct TextureCompressionArgs<'a> {
    pub img_bytes: &'a [u8],
    pub img_width: u32,
    pub img_height: u32,
    pub img_channel_count: u8,
    pub is_normal_map: bool,
    pub is_srgb: bool,
    pub thread_count: u32,
}

impl TextureCompressor {
    pub fn new() -> Self {
        TextureCompressor(())
    }
}

impl Default for TextureCompressor {
    fn default() -> Self {
        Self::new()
    }
}

/// The file name of `path` without its extension, as `Path::file_stem`
/// gives it, when the path has a file name.
pub uninterp spec fn file_stem_of(path: Seq<char>) -> Option<Seq<char>>;

/// `path` with its file name replaced by `name`, as `Path::with_file_name`
/// gives it.
pub uninterp spec fn with_file_name_of(path: Seq<char>, name: Seq<char>) -> Seq<char>;

/// Relies on std's `Path::file_stem`: the last component of the path
/// without its extension, or `None` when the path ends in no file name.
#[verifier::external_body]
fn file_stem(path: &str) -> (r: Option<String>)
    ensures
        match r {
            Some(stem) => file_stem_of(path@) == Some(stem@),
            None => file_stem_of(path@) is None,
        },
{
    std::path::Path::new(path).file_stem().map(|stem| stem.to_string_lossy().into_owned())
}

/// Relies on std's `Path::with_file_name`: the same path with `name` as its
/// file name.
#[verifier::external_body]
fn with_file_name(path: &str, name: &str) -> (r: String)
    ensures
        r@ == with_file_name_of(path@, name@),
{
    std::path::Path::new(path).with_file_name(name).to_string_lossy().into_owned()
}

/// Where the compressed form of the texture at `path` is kept: beside it,
/// named after its file stem with `_compressed.bin` appended. `None` when
/// `path` ends in no file name.
pub fn texture_path_to_compressed_path(path: &str) -> (r: Option<String>)
    ensures
        match file_stem_of(path@) {
            Some(stem) => r matches Some(p) && p@ == with_file_name_of(
                path@,
                stem + "_compressed.bin"@,
            ),
            None => r is None,
        },
{
    match file_stem(path) {
        Some(stem) => {
            let name = stem.concat("_compressed.bin");
            Some(with_file_name(path, name.as_str()))
        },
        None => None,
    }
}

} // verus!
