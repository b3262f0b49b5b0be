//! The language for what is said to people: English by default, Japanese where it is asked for.
use crate::text;
use vstd::prelude::*;

verus! {

/// A language to speak in.
#[derive(Clone, Copy, PartialEq, Eq, Debug, Structural)]
pub enum Lang {
    En,
    Ja,
}

/// A setting asks for Japanese: `ja`, `ja_JP.UTF-8`, `ja-JP`, `japanese`, in any case and with
/// white space around it.
pub open spec fn asks_for_japanese(value: Seq<char>) -> bool {
    let v = text::lowered(text::trimmed(value));
    v == "ja"@ || "ja_"@.is_prefix_of(v) || "ja-"@.is_prefix_of(v) || v == "japanese"@
}

impl Lang {
    /// Reads a language setting; anything but Japanese (or nothing) is English.
    pub fn parse(value: Option<&str>) -> (lang: Lang)
        ensures
            lang == (match value {
                Some(v) => if asks_for_japanese(v@) {
                    Lang::Ja
                } else {
                    Lang::En
                },
                None => Lang::En,
            }),
    {
        match value {
            Some(raw) => {
                let cut: String = text::trim(raw);
                let v: String = text::ascii_lower(cut.as_str());
                if text::same(v.as_str(), "ja") || text::starts_with(v.as_str(), "ja_")
                    || text::starts_with(v.as_str(), "ja-") || text::same(v.as_str(), "japanese") {
                    Lang::Ja
                } else {
                    Lang::En
                }
            },
            None => Lang::En,
        }
    }

    /// The wording for this language.
    pub open spec fn of<T>(self, en: T, ja: T) -> T {
        match self {
            Lang::En => en,
            Lang::Ja => ja,
        }
    }

    /// Picks the wording for this language.
    pub fn pick<'a>(self, en: &'a str, ja: &'a str) -> (r: &'a str)
        ensures
            r@ == self.of(en@, ja@),
    {
        match self {
            Lang::En => en,
            Lang::Ja => ja,
        }
    }
}

/// The language that was spoken before another one was pinned.
pub struct Pin {
    pub before: Option<Lang>,
}

/// Speaks `lang` from now on. What was spoken before is kept in the pin.
pub fn pin(slot: &mut Option<Lang>, lang: Lang) -> (p: Pin)
    ensures
        *final(slot) == Some(lang),
        p.before == *old(slot),
{
    let before: Option<Lang> = *slot;
    *slot = Some(lang);
    Pin { before }
}

impl Pin {
    /// Speaks again what was spoken before the pin.
    pub fn release(self, slot: &mut Option<Lang>)
        ensures
            *final(slot) == self.before,
    {
        *slot = self.before;
    }
}

/// The language to speak in: a pinned one first, then what the settings ask for.
pub fn lang(pinned: Option<Lang>, setting: Option<&str>) -> (r: Lang)
    ensures
        pinned is Some ==> r == pinned->0,
        pinned is None && setting is Some ==> r == if asks_for_japanese(setting->0@) {
            Lang::Ja
        } else {
            Lang::En
        },
        pinned is None && setting is None ==> r == Lang::En,
{
    match pinned {
        Some(l) => l,
        None => Lang::parse(setting),
    }
}

} // verus!
