//! What a compilation hands back: the code, and the source map beside it
//! or inside it.

use vstd::prelude::*;
use vstd::string::{StrSliceExecFns, StringExecFns};

verus! {

/// Whether and how a source map is made.
#[derive(Debug, PartialEq, Eq)]
pub enum SourceMapsConfig {
    /// A map beside the code, or none.
    Bool(bool),
    /// A map inside the code, as a comment at its end.
    Str(String),
}

impl SourceMapsConfig {
    pub open spec fn spec_enabled(&self) -> bool {
        match self {
            SourceMapsConfig::Bool(b) => *b,
            SourceMapsConfig::Str(_) => true,
        }
    }

    /// Whether a source map is to be made at all.
    #[verifier::when_used_as_spec(spec_enabled)]
    pub fn enabled(&self) -> (r: bool)
        ensures
            r == self.spec_enabled(),
    {
        match self {
            SourceMapsConfig::Bool(b) => *b,
            SourceMapsConfig::Str(_) => true,
        }
    }
}

/// Whether a comment with this text survives minification: one that begins
/// with an exclamation mark does.
pub open spec fn is_kept_comment(text: Seq<char>) -> bool {
    text.len() > 0 && text[0] == '!'
}

/// Whether a comment with this text survives minification.
pub fn keeps_comment(text: &str) -> (r: bool)
    ensures
        r == is_kept_comment(text@),
{
    text.unicode_len() > 0 && text.get_char(0) == '!'
}

/// The code that came out, and its source map where that stands beside it.
#[derive(Debug, PartialEq, Eq)]
pub struct TransformOutput {
    pub code: String,
    pub map: Option<String>,
}

/// What `base64::encode_config_buf` appends for the UTF-8 bytes of `text`
/// with the URL-safe alphabet and padding.
pub uninterp spec fn url_safe_base64(text: Seq<char>) -> Seq<char>;

/// `base64::encode_config_buf` with the URL-safe alphabet and padding: the
/// encoding of the bytes of `text` is appended to `buf`, and nothing that
/// `buf` held is touched.
#[verifier::external_body]
fn append_base64(text: &str, buf: &mut String)
    ensures
        final(buf)@ == old(buf)@ + url_safe_base64(text@),
{
    let config = base64::Config::new(base64::CharacterSet::UrlSafe, true);
    base64::encode_config_buf(text.as_bytes(), config, buf);
}

/// The comment that carries a source map inside the code, up to the map
/// itself.
pub open spec fn inline_map_prefix() -> Seq<char> {
    "\n//# sourceMappingURL=data:application/json;base64,"@
}

/// The code with its source map inside: `code`, the comment prefix, and the
/// map in base64.
pub open spec fn with_inline_map(code: Seq<char>, map: Seq<char>) -> Seq<char> {
    code + inline_map_prefix() + url_safe_base64(map)
}

/// Appends `map` to `code` as a source map comment.
pub fn append_inline_map(code: String, map: &str) -> (r: String)
    ensures
        r@ == with_inline_map(code@, map@),
{
    let mut out = code;
    out.append("\n//# sourceMappingURL=data:application/json;base64,");
    append_base64(map, &mut out);
    out
}

impl TransformOutput {
    /// What is handed back for `code` and the source map `map` made for it,
    /// if one was made.
    ///
    /// - `Bool(true)`: the code, and the map beside it.
    /// - `Bool(false)`: the code alone.
    /// - `Str(_)`: the code with the map inside, and no map beside it.
    pub open spec fn spec_new(code: Seq<char>, map: Option<Seq<char>>, config: SourceMapsConfig)
        -> (Seq<char>, Option<Seq<char>>) {
        match config {
            SourceMapsConfig::Bool(true) => (code, map),
            SourceMapsConfig::Bool(false) => (code, None),
            SourceMapsConfig::Str(_) => (
                match map {
                    Some(m) => with_inline_map(code, m),
                    None => code,
                },
                None,
            ),
        }
    }

    pub open spec fn view_pair(&self) -> (Seq<char>, Option<Seq<char>>) {
        (
            self.code@,
            match self.map {
                Some(m) => Some(m@),
                None => None,
            },
        )
    }

    /// Puts together what is handed back for `code` and the source map
    /// made for it, if one was made.
    pub fn new(code: String, map: Option<String>, config: &SourceMapsConfig) -> (r:
        TransformOutput)
        ensures
            r.view_pair() == TransformOutput::spec_new(
                code@,
                match map {
                    Some(m) => Some(m@),
                    None => None,
                },
                *config,
            ),
    {
        match config {
            SourceMapsConfig::Bool(true) => TransformOutput { code, map },
            SourceMapsConfig::Bool(false) => TransformOutput { code, map: None },
            SourceMapsConfig::Str(_) => match map {
                Some(m) => TransformOutput { code: append_inline_map(code, m.as_str()), map: None },
                None => TransformOutput { code, map: None },
            },
        }
    }
}

} // verus!
