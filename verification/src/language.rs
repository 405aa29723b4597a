//! The languages whose declarations are recognised, told apart by file
//! extension.

use vstd::prelude::*;
use vstd::slice::slice_subrange;
use vstd::string::StringSliceAdditionalSpecFns;

use crate::text::{is_text, last_index_of, last_position, lemma_last_position_bounds};
use crate::unicode::{lowercase, to_lowercase};

verus! {

pub const DOT: u8 = 0x2E;

pub const SLASH: u8 = 0x2F;

/// A language whose declarations are recognised.
#[derive(Clone, Copy, Debug, PartialEq, Eq, Structural)]
pub enum Language {
    Python,
    Rust,
    Typescript,
    Javascript,
    Go,
    Java,
    Csharp,
    Generic,
}

/// Whether the lower-case extension `e` belongs to one of the languages that
/// share the catch-all rules.
pub open spec fn is_generic_extension(e: Seq<u8>) -> bool {
    ||| e == "swift".spec_bytes()
    ||| e == "cpp".spec_bytes()
    ||| e == "cc".spec_bytes()
    ||| e == "cxx".spec_bytes()
    ||| e == "h".spec_bytes()
    ||| e == "hpp".spec_bytes()
    ||| e == "hh".spec_bytes()
    ||| e == "rb".spec_bytes()
    ||| e == "php".spec_bytes()
    ||| e == "lua".spec_bytes()
    ||| e == "zig".spec_bytes()
    ||| e == "rsx".spec_bytes()
    ||| e == "c".spec_bytes()
    ||| e == "dart".spec_bytes()
    ||| e == "el".spec_bytes()
    ||| e == "erl".spec_bytes()
    ||| e == "ex".spec_bytes()
    ||| e == "exs".spec_bytes()
    ||| e == "hs".spec_bytes()
    ||| e == "ml".spec_bytes()
    ||| e == "nim".spec_bytes()
    ||| e == "sh".spec_bytes()
}

/// The language that the lower-case extension `e` stands for.
pub open spec fn language_of_lowercase(e: Seq<u8>) -> Option<Language> {
    if e == "py".spec_bytes() {
        Some(Language::Python)
    } else if e == "rs".spec_bytes() {
        Some(Language::Rust)
    } else if e == "ts".spec_bytes() || e == "tsx".spec_bytes() {
        Some(Language::Typescript)
    } else if e == "js".spec_bytes() || e == "jsx".spec_bytes() || e == "mjs".spec_bytes() || e
        == "cjs".spec_bytes() {
        Some(Language::Javascript)
    } else if e == "go".spec_bytes() {
        Some(Language::Go)
    } else if e == "java".spec_bytes() || e == "kt".spec_bytes() || e == "kts".spec_bytes() || e
        == "scala".spec_bytes() {
        Some(Language::Java)
    } else if e == "cs".spec_bytes() {
        Some(Language::Csharp)
    } else if is_generic_extension(e) {
        Some(Language::Generic)
    } else {
        None
    }
}

/// The language that the extension `ext` stands for, whatever its case.
pub open spec fn language_of_extension(ext: Seq<u8>) -> Option<Language> {
    language_of_lowercase(lowercase(ext))
}

/// The last component of `path`: what follows its last slash.
pub open spec fn file_name_of(path: Seq<u8>) -> Seq<u8> {
    path.skip(last_position(path, SLASH) + 1)
}

/// The extension of `path`: what follows the last dot of its last
/// component. A component without a dot has none, nor has one whose only
/// dot is its first byte, nor has `..`.
pub open spec fn extension_of(path: Seq<u8>) -> Option<Seq<u8>> {
    let name = file_name_of(path);
    let dot = last_position(name, DOT);
    if dot <= 0 || name == seq![DOT, DOT] {
        None
    } else {
        Some(name.skip(dot + 1))
    }
}

/// The extension of `path`.
pub fn path_extension(path: &[u8]) -> (r: Option<&[u8]>)
    ensures
        match r {
            Some(ext) => extension_of(path@) == Some(ext@),
            None => extension_of(path@) is None,
        },
{
    proof {
        lemma_last_position_bounds(path@, SLASH);
    }
    let start: usize = match last_index_of(path, SLASH) {
        Some(i) => i + 1,
        None => 0,
    };
    let name = slice_subrange(path, start, path.len());
    proof {
        assert(name@ =~= file_name_of(path@));
        lemma_last_position_bounds(name@, DOT);
    }
    match last_index_of(name, DOT) {
        Some(dot) => {
            if dot == 0 || (name.len() == 2 && name[0] == DOT) {
                proof {
                    if dot != 0 {
                        assert(name@ =~= seq![DOT, DOT]);
                    }
                }
                None
            } else {
                let ext = slice_subrange(name, dot + 1, name.len());
                proof {
                    assert(ext@ =~= name@.skip(dot + 1));
                    if name@ == seq![DOT, DOT] {
                        assert(name@.len() == 2);
                        assert(name@[0] == DOT);
                    }
                }
                Some(ext)
            }
        },
        None => None,
    }
}

impl Language {
    /// The language of a file extension, whatever its case.
    pub fn from_extension(ext: &[u8]) -> (r: Option<Language>)
        ensures
            r == language_of_extension(ext@),
    {
        let lower = to_lowercase(ext);
        let e = lower.as_slice();
        if is_text(e, "py") {
            Some(Language::Python)
        } else if is_text(e, "rs") {
            Some(Language::Rust)
        } else if is_text(e, "ts") || is_text(e, "tsx") {
            Some(Language::Typescript)
        } else if is_text(e, "js") || is_text(e, "jsx") || is_text(e, "mjs") || is_text(e, "cjs") {
            Some(Language::Javascript)
        } else if is_text(e, "go") {
            Some(Language::Go)
        } else if is_text(e, "java") || is_text(e, "kt") || is_text(e, "kts") || is_text(
            e,
            "scala",
        ) {
            Some(Language::Java)
        } else if is_text(e, "cs") {
            Some(Language::Csharp)
        } else if is_text(e, "swift") || is_text(e, "cpp") || is_text(e, "cc") || is_text(e, "cxx")
            || is_text(e, "h") || is_text(e, "hpp") || is_text(e, "hh") || is_text(e, "rb")
            || is_text(e, "php") || is_text(e, "lua") || is_text(e, "zig") || is_text(e, "rsx")
            || is_text(e, "c") || is_text(e, "dart") || is_text(e, "el") || is_text(e, "erl")
            || is_text(e, "ex") || is_text(e, "exs") || is_text(e, "hs") || is_text(e, "ml")
            || is_text(e, "nim") || is_text(e, "sh") {
            Some(Language::Generic)
        } else {
            None
        }
    }

    /// The language of the file at `path`, told by its extension. A path
    /// without an extension, or with one that is not known, has none.
    pub fn from_path(path: &[u8]) -> (r: Option<Language>)
        ensures
            r == match extension_of(path@) {
                Some(ext) => language_of_extension(ext),
                None => None,
            },
    {
        match path_extension(path) {
            Some(ext) => Language::from_extension(ext),
            None => None,
        }
    }

    /// The name of the language as a mathematical value.
    pub open spec fn name(self) -> Seq<char> {
        match self {
            Language::Python => "python"@,
            Language::Rust => "rust"@,
            Language::Typescript => "typescript"@,
            Language::Javascript => "javascript"@,
            Language::Go => "go"@,
            Language::Java => "java"@,
            Language::Csharp => "csharp"@,
            Language::Generic => "generic"@,
        }
    }

    /// The name of the language, in lower case.
    pub fn as_str(&self) -> (r: &'static str)
        ensures
            r@ == self.name(),
    {
        match self {
            Language::Python => "python",
            Language::Rust => "rust",
            Language::Typescript => "typescript",
            Language::Javascript => "javascript",
            Language::Go => "go",
            Language::Java => "java",
            Language::Csharp => "csharp",
            Language::Generic => "generic",
        }
    }
}

} // verus!
