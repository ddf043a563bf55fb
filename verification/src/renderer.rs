//! Asset descriptors and the text-rendering helpers that need no GPU.
use vstd::prelude::*;
use crate::strings::chars_of;
use macroquad::texture::Texture2D;

verus! {

/// An asset that can be loaded as a texture: a file path or embedded bytes.
#[derive(Debug)]
pub enum GraphicAsset {
    /// An external file.
    Path(&'static str),
    /// Embedded bytes, with the file name they came from.
    Bytes { file_name: &'static str, data: &'static [u8] },
}

impl GraphicAsset {
    /// The path, or the file name of embedded bytes.
    pub fn get_name(&self) -> (r: &'static str)
        ensures
            r == (match self {
                GraphicAsset::Path(path) => *path,
                GraphicAsset::Bytes { file_name, .. } => *file_name,
            }),
    {
        match self {
            GraphicAsset::Path(path) => path,
            GraphicAsset::Bytes { file_name, .. } => file_name,
        }
    }
}

/// `macroquad::texture::Texture2D`, a texture on the GPU.
#[verifier::external_type_specification]
#[verifier::external_body]
pub struct ExTexture2D(Texture2D);

/// The source of an image element: a static asset, or a texture already on
/// the GPU.
#[derive(Debug)]
pub enum ImageSource {
    /// A file path or embedded bytes.
    Asset(&'static GraphicAsset),
    /// A texture handle.
    Texture(Texture2D),
}

impl ImageSource {
    /// A readable name for debugging: the asset's name, or `[Texture2D]`.
    pub fn get_name(&self) -> (r: &str)
        ensures
            match self {
                ImageSource::Asset(ga) => r == (match **ga {
                    GraphicAsset::Path(path) => path,
                    GraphicAsset::Bytes { file_name, .. } => file_name,
                }),
                ImageSource::Texture(_) => r@ == "[Texture2D]"@,
            },
    {
        match self {
            ImageSource::Asset(ga) => ga.get_name(),
            ImageSource::Texture(_) => {
                proof {
                    reveal_strlit("[Texture2D]");
                }
                "[Texture2D]"
            },
        }
    }
}

/// A font that can be loaded: a `.ttf` file path or embedded bytes.
#[derive(Debug)]
pub enum FontAsset {
    /// A file path to a `.ttf` font file.
    Path(&'static str),
    /// Embedded font bytes, with the file name they came from.
    Bytes { file_name: &'static str, data: &'static [u8] },
}

impl FontAsset {
    /// A unique key for this font (its path or file name).
    pub fn key(&self) -> (r: &'static str)
        ensures
            r == (match self {
                FontAsset::Path(path) => *path,
                FontAsset::Bytes { file_name, .. } => *file_name,
            }),
    {
        match self {
            FontAsset::Path(path) => path,
            FontAsset::Bytes { file_name, .. } => file_name,
        }
    }
}

/// The state of scanning styled text: characters counted as visible so far,
/// whether inside a `{style|` opener, and whether the previous character was
/// an escaping backslash.
pub struct VisibleScan {
    pub count: int,
    pub in_style_def: bool,
    pub escaped: bool,
}

/// Scans styled text: an escaped character is visible; `\` escapes the
/// next one; `{` opens a style name that `|` closes; `}` closes a style;
/// any other character (or a `|` outside a style name) is visible unless it
/// is part of a style name.
pub open spec fn spec_visible_scan(s: Seq<char>) -> VisibleScan
    decreases s.len(),
{
    if s.len() == 0 {
        VisibleScan { count: 0, in_style_def: false, escaped: false }
    } else {
        let st = spec_visible_scan(s.drop_last());
        let c = s.last();
        if st.escaped {
            VisibleScan { count: st.count + 1, escaped: false, ..st }
        } else if c == '\\' {
            VisibleScan { escaped: true, ..st }
        } else if c == '{' {
            VisibleScan { in_style_def: true, ..st }
        } else if c == '|' {
            if st.in_style_def {
                VisibleScan { in_style_def: false, ..st }
            } else {
                VisibleScan { count: st.count + 1, ..st }
            }
        } else if c == '}' {
            st
        } else if !st.in_style_def {
            VisibleScan { count: st.count + 1, ..st }
        } else {
            st
        }
    }
}

proof fn lemma_visible_count_bounded(s: Seq<char>)
    ensures
        0 <= spec_visible_scan(s).count <= s.len(),
    decreases s.len(),
{
    if s.len() > 0 {
        lemma_visible_count_bounded(s.drop_last());
    }
}

/// The number of characters of styled text that are displayed, skipping
/// style markup (`{name|` openers, `}` closers and `\` escapes).
pub fn count_visible_chars(text: &str) -> (r: usize)
    ensures
        r == spec_visible_scan(text@).count,
{
    let chars = chars_of(text);
    let mut count: usize = 0;
    let mut in_style_def = false;
    let mut escaped = false;
    let mut i: usize = 0;
    while i < chars.len()
        invariant
            chars@ == text@,
            0 <= i <= chars@.len(),
            count == spec_visible_scan(chars@.take(i as int)).count,
            in_style_def == spec_visible_scan(chars@.take(i as int)).in_style_def,
            escaped == spec_visible_scan(chars@.take(i as int)).escaped,
        decreases chars.len() - i,
    {
        let c = chars[i];
        proof {
            assert(chars@.take(i as int + 1).drop_last() =~= chars@.take(i as int));
            lemma_visible_count_bounded(chars@.take(i as int));
        }
        if escaped {
            count = count + 1;
            escaped = false;
        } else if c == '\\' {
            escaped = true;
        } else if c == '{' {
            in_style_def = true;
        } else if c == '|' {
            if in_style_def {
                in_style_def = false;
            } else {
                count = count + 1;
            }
        } else if c == '}' {
        } else if !in_style_def {
            count = count + 1;
        }
        i = i + 1;
    }
    proof {
        assert(chars@.take(chars@.len() as int) =~= chars@);
    }
    count
}

} // verus!
