//! How clipboard files of the remote become files on this side.
use vstd::prelude::*;
use crate::strings::chars_of;

verus! {

/// How clipboard files are made available to file managers.
#[derive(Clone, Copy, Debug, PartialEq, Eq, Structural)]
pub enum FileTransferMode {
    /// A virtual file system that fetches a file when it is read.
    Fuse,
    /// All files are downloaded as soon as they are announced.
    Staging,
    /// The file transfer portal of the desktop.
    Portal,
}

/// A letter in lower case. Only ASCII letters change.
pub open spec fn lower(c: char) -> char {
    if 65 <= c as u32 <= 90 {
        (c as u8 + 32) as u8 as char
    } else {
        c
    }
}

pub open spec fn lowered(text: Seq<char>) -> Seq<char> {
    text.map_values(|c: char| lower(c))
}

/// The mode that a setting names, whatever its case. `auto`, like anything
/// unknown, names none.
pub open spec fn named_mode(setting: Seq<char>) -> Option<FileTransferMode> {
    if lowered(setting) == "fuse"@ {
        Some(FileTransferMode::Fuse)
    } else if lowered(setting) == "staging"@ {
        Some(FileTransferMode::Staging)
    } else if lowered(setting) == "portal"@ {
        Some(FileTransferMode::Portal)
    } else {
        None
    }
}

/// The mode for an environment: the sandbox has no access to FUSE.
pub open spec fn default_mode(in_flatpak: bool) -> FileTransferMode {
    if in_flatpak {
        FileTransferMode::Staging
    } else {
        FileTransferMode::Fuse
    }
}

fn lower_char(c: char) -> (low: char)
    ensures
        low == lower(c),
{
    let code: u32 = c as u32;
    if 65 <= code && code <= 90 {
        (code as u8 + 32) as char
    } else {
        c
    }
}

/// Whether a text is a word, whatever its case. The word is in lower case and
/// holds no `k`, the one ASCII letter that is the lower case of a character outside
/// ASCII.
fn is_word(text: &str, word: &str) -> (same: bool)
    ensures
        same == (lowered(text@) == word@),
{
    let chars: Vec<char> = chars_of(text);
    let wanted: Vec<char> = chars_of(word);
    if chars.len() != wanted.len() {
        return false;
    }
    let mut i: usize = 0;
    while i < chars.len()
        invariant
            chars@ == text@,
            wanted@ == word@,
            i <= chars@.len() == wanted@.len(),
            forall|k: int| 0 <= k < i ==> #[trigger] lowered(text@)[k] == word@[k],
        decreases chars@.len() - i,
    {
        if lower_char(chars[i]) != wanted[i] {
            assert(lowered(text@)[i as int] != word@[i as int]);
            return false;
        }
        i += 1;
    }
    assert(lowered(text@) =~= word@);
    true
}

impl FileTransferMode {
    /// Selects the mode: the setting where it names one, else what fits the
    /// environment.
    pub fn select(in_flatpak: bool, config_override: Option<&str>) -> (mode: Self)
        ensures
            mode == match config_override {
                Some(setting) => match named_mode(setting@) {
                    Some(named) => named,
                    None => default_mode(in_flatpak),
                },
                None => default_mode(in_flatpak),
            },
    {
        if let Some(setting) = config_override {
            if let Some(mode) = Self::from_override_string(setting) {
                return mode;
            }
        }
        Self::auto_select(in_flatpak)
    }

    /// The mode for an environment.
    pub fn auto_select(in_flatpak: bool) -> (mode: Self)
        ensures
            mode == default_mode(in_flatpak),
    {
        if in_flatpak {
            FileTransferMode::Staging
        } else {
            FileTransferMode::Fuse
        }
    }

    /// The mode that a setting names.
    pub fn from_override_string(s: &str) -> (mode: Option<Self>)
        ensures
            mode == named_mode(s@),
    {
        if is_word(s, "fuse") {
            Some(FileTransferMode::Fuse)
        } else if is_word(s, "staging") {
            Some(FileTransferMode::Staging)
        } else if is_word(s, "portal") {
            Some(FileTransferMode::Portal)
        } else {
            None
        }
    }

    /// The mode's name for people.
    pub fn name(&self) -> (name: &'static str)
        ensures
            name@ == match *self {
                FileTransferMode::Fuse => "FUSE On-Demand"@,
                FileTransferMode::Staging => "Staging Download"@,
                FileTransferMode::Portal => "Portal FileTransfer"@,
            },
    {
        match self {
            FileTransferMode::Fuse => "FUSE On-Demand",
            FileTransferMode::Staging => "Staging Download",
            FileTransferMode::Portal => "Portal FileTransfer",
        }
    }
}

/// `auto`, whatever its case, leaves the choice to the environment.
pub proof fn lemma_auto_names_no_mode()
    ensures
        named_mode("auto"@) is None,
        forall|setting: Seq<char>|
            lowered(setting) == "auto"@ ==> #[trigger] named_mode(setting) is None,
{
    reveal_strlit("auto");
    reveal_strlit("fuse");
    reveal_strlit("staging");
    reveal_strlit("portal");
    assert("auto"@[0] != "fuse"@[0]);
    assert(lowered("auto"@)[0] == 'a');
}

/// Only the capital letters of ASCII change, each to the small letter 32 places on.
pub proof fn lemma_capitals_become_small(c: char)
    ensures
        'A' <= c && c <= 'Z' ==> lower(c) as u32 == c as u32 + 32,
        !('A' <= c && c <= 'Z') ==> lower(c) == c,
        lower(lower(c)) == lower(c),
{
}

/// A setting names its mode in capitals, in small letters or in any mixture.
pub proof fn lemma_modes_are_named_in_any_case(setting: Seq<char>, other: Seq<char>)
    requires
        setting.len() == other.len(),
        forall|i: int|
            0 <= i < setting.len() ==> (#[trigger] setting[i] == other[i] || ('A' <= setting[i]
                && setting[i] <= 'Z' && other[i] as u32 == setting[i] as u32 + 32)),
    ensures
        other == "fuse"@ ==> named_mode(setting) == Some(FileTransferMode::Fuse),
        other == "staging"@ ==> named_mode(setting) == Some(FileTransferMode::Staging),
        other == "portal"@ ==> named_mode(setting) == Some(FileTransferMode::Portal),
        other == "auto"@ ==> named_mode(setting) is None,
{
    reveal_strlit("auto");
    reveal_strlit("fuse");
    reveal_strlit("staging");
    reveal_strlit("portal");
    assert("auto"@[0] == 'a' && "fuse"@[0] == 'f' && "staging"@[0] == 's' && "portal"@[0] == 'p');
    if other == "fuse"@ || other == "staging"@ || other == "portal"@ || other == "auto"@ {
        assert forall|i: int| 0 <= i < other.len() implies 'a' <= #[trigger] other[i] && other[i]
            <= 'z' by {}
        assert forall|i: int| 0 <= i < setting.len() implies #[trigger] lowered(setting)[i]
            == other[i] by {
            lemma_capitals_become_small(setting[i]);
            assert(setting[i] == other[i] || other[i] as u32 == setting[i] as u32 + 32);
            if setting[i] != other[i] {
                vstd::utf8::char_u32_cast(other[i], lower(setting[i]) as u32);
                vstd::utf8::char_u32_cast(lower(setting[i]), lower(setting[i]) as u32);
            }
        }
        assert(lowered(setting) =~= other);
    }
}

/// A setting that is none of the three names, in any case, names no mode.
pub proof fn lemma_other_settings_name_no_mode(setting: Seq<char>)
    ensures
        named_mode(setting) is Some ==> lowered(setting) == "fuse"@ || lowered(setting)
            == "staging"@ || lowered(setting) == "portal"@,
        default_mode(true) == FileTransferMode::Staging,
        default_mode(false) == FileTransferMode::Fuse,
{
}

} // verus!
