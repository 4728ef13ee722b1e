//! Language normalization and the persisted user settings value.  Reading
//! and writing the settings file is the shell's job; the rules for choosing
//! and updating the stored value live here.
use vstd::prelude::*;

verus! {

/// Whether a locale identifier selects the Chinese interface: its first
/// `-`-separated part is `zh` in any ASCII case.
pub open spec fn is_zh_locale(s: Seq<char>) -> bool {
    s.len() >= 2 && (s[0] == 'z' || s[0] == 'Z') && (s[1] == 'h' || s[1] == 'H') && (s.len() == 2
        || s[2] == '-')
}

/// The normalized form of a locale identifier: `zh` or `en`.
pub open spec fn normalized_lang(s: Seq<char>) -> Seq<char> {
    if is_zh_locale(s) {
        seq!['z', 'h']
    } else {
        seq!['e', 'n']
    }
}

/// Normalizes a locale identifier to one of the two supported interface
/// languages.
pub fn normalize_language(lang: &str) -> (r: String)
    ensures
        r@ == normalized_lang(lang@),
{
    let n = lang.unicode_len();
    let zh = if n >= 2 {
        let c0 = lang.get_char(0);
        let c1 = lang.get_char(1);
        let tail_ok = n == 2 || lang.get_char(2) == '-';
        (c0 == 'z' || c0 == 'Z') && (c1 == 'h' || c1 == 'H') && tail_ok
    } else {
        false
    };
    if zh {
        let mut v: Vec<char> = Vec::new();
        v.push('z');
        v.push('h');
        proof {
            assert(v@ =~= normalized_lang(lang@));
        }
        crate::chars::chars_to_string(&v)
    } else {
        let mut v: Vec<char> = Vec::new();
        v.push('e');
        v.push('n');
        proof {
            assert(v@ =~= normalized_lang(lang@));
        }
        crate::chars::chars_to_string(&v)
    }
}

/// The persisted user settings: only the language preference.
#[derive(Debug, PartialEq, Eq)]
pub struct UserSettings {
    pub language: String,
}

/// The settings to use given what the store held: the loaded value, or the
/// English default on first launch.
pub fn effective_settings(loaded: Option<UserSettings>) -> (r: UserSettings)
    ensures
        match loaded {
            Option::Some(s) => r == s,
            Option::None => r.language@ == seq!['e', 'n'],
        },
{
    match loaded {
        Option::Some(s) => s,
        Option::None => {
            let mut v: Vec<char> = Vec::new();
            v.push('e');
            v.push('n');
            proof {
                assert(v@ =~= seq!['e', 'n']);
            }
            UserSettings { language: crate::chars::chars_to_string(&v) }
        },
    }
}

/// The settings value to persist after the user picks a language: the
/// stored settings with the language replaced verbatim.
pub fn save_language_to_storage(loaded: Option<UserSettings>, lang: &str) -> (r: UserSettings)
    ensures
        r.language@ == lang@,
{
    let mut base = effective_settings(loaded);
    base.language = crate::chars::chars_to_string(&crate::chars::str_to_chars(lang));
    base
}

} // verus!
