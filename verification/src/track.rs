//! The per-track record and its language tags.

use vstd::prelude::*;
use crate::sort::SortKey;
use crate::strings::{lex_le, str_lex_le};

verus! {

/// A language whose playlist tags tracks.
#[derive(Debug, Clone, Copy, PartialEq, Eq, Structural)]
pub enum Lang {
    Cn,
    En,
    Jp,
    Kr,
    O,
}

/// One membership flag per language: true iff the track's verbatim file line
/// appears in that language's playlist.
#[derive(Debug, Clone, Copy, PartialEq, Eq, Structural)]
pub struct LangFlags {
    pub cn: bool,
    pub en: bool,
    pub jp: bool,
    pub kr: bool,
    pub o: bool,
}

/// The flag of `f` for language `l`.
pub open spec fn lang_flag(f: LangFlags, l: Lang) -> bool {
    match l {
        Lang::Cn => f.cn,
        Lang::En => f.en,
        Lang::Jp => f.jp,
        Lang::Kr => f.kr,
        Lang::O => f.o,
    }
}

/// Some language flag of `f` is set.
pub open spec fn any_lang_flag(f: LangFlags) -> bool {
    f.cn || f.en || f.jp || f.kr || f.o
}

/// All five flags cleared.
pub open spec fn no_lang_flags() -> LangFlags {
    LangFlags { cn: false, en: false, jp: false, kr: false, o: false }
}

impl LangFlags {
    /// A fresh record starts with every flag cleared.
    pub fn none() -> (r: LangFlags)
        ensures
            r == no_lang_flags(),
    {
        LangFlags { cn: false, en: false, jp: false, kr: false, o: false }
    }

    /// Reads the flag for language `l`.
    pub fn get(&self, l: Lang) -> (r: bool)
        ensures
            r == lang_flag(*self, l),
    {
        match l {
            Lang::Cn => self.cn,
            Lang::En => self.en,
            Lang::Jp => self.jp,
            Lang::Kr => self.kr,
            Lang::O => self.o,
        }
    }

    /// The flags with the flag for `l` replaced by `v`.
    pub fn with(&self, l: Lang, v: bool) -> (r: LangFlags)
        ensures
            r == spec_with_flag(*self, l, v),
    {
        let mut r = *self;
        match l {
            Lang::Cn => r.cn = v,
            Lang::En => r.en = v,
            Lang::Jp => r.jp = v,
            Lang::Kr => r.kr = v,
            Lang::O => r.o = v,
        }
        r
    }

    /// Whether any flag is set.
    pub fn any(&self) -> (r: bool)
        ensures
            r == any_lang_flag(*self),
    {
        self.cn || self.en || self.jp || self.kr || self.o
    }
}

/// The flags `f` with the flag for `l` replaced by `v`.
pub open spec fn spec_with_flag(f: LangFlags, l: Lang, v: bool) -> LangFlags {
    match l {
        Lang::Cn => LangFlags { cn: v, ..f },
        Lang::En => LangFlags { en: v, ..f },
        Lang::Jp => LangFlags { jp: v, ..f },
        Lang::Kr => LangFlags { kr: v, ..f },
        Lang::O => LangFlags { o: v, ..f },
    }
}

/// One row of the track table: the two raw playlist lines kept verbatim for
/// lossless re-emission, and the fields derived from them.
#[derive(Debug)]
pub struct Track {
    /// The raw rating line, verbatim.
    pub rating_line: String,
    /// The raw file-path line, verbatim (URI-encoding and all).
    pub file_line: String,
    /// The star rating, parsed from the last character of `rating_line`.
    pub rating: u8,
    /// The second-to-last `/`-separated segment of `file_line`.
    pub parent_dir: String,
    /// The last `/`-separated segment of `file_line`.
    pub file_name: String,
    /// Per-language membership flags.
    pub lang_flags: LangFlags,
}

/// Copies a track field by field; the copy equals the original.
pub fn clone_track(t: &Track) -> (r: Track)
    ensures
        r == *t,
{
    Track {
        rating_line: t.rating_line.clone(),
        file_line: t.file_line.clone(),
        rating: t.rating,
        parent_dir: t.parent_dir.clone(),
        file_name: t.file_name.clone(),
        lang_flags: t.lang_flags,
    }
}

impl SortKey for Track {
    /// Tracks are ordered by their raw file line.
    open spec fn key(self) -> Seq<char> {
        self.file_line@
    }

    fn key_le(&self, other: &Self) -> (r: bool)
        ensures
            r == lex_le(self.key(), other.key()),
    {
        str_lex_le(self.file_line.as_str(), other.file_line.as_str())
    }
}

} // verus!
