//! The languages of the user interface.

use vstd::prelude::*;

use crate::device::characters;

verus! {

/// A character that counts as white space.
pub open spec fn is_white(c: char) -> bool {
    let code = c as u32;
    ||| 0x09 <= code <= 0x0d
    ||| code == 0x20
    ||| code == 0x85
    ||| code == 0xa0
    ||| code == 0x1680
    ||| 0x2000 <= code <= 0x200a
    ||| code == 0x2028
    ||| code == 0x2029
    ||| code == 0x202f
    ||| code == 0x205f
    ||| code == 0x3000
}

/// A text without the white space in front of it.
pub open spec fn trimmed_start(text: Seq<char>) -> Seq<char>
    decreases text.len(),
{
    if text.len() > 0 && is_white(text[0]) {
        trimmed_start(text.drop_first())
    } else {
        text
    }
}

/// A text without the white space behind it.
pub open spec fn trimmed_end(text: Seq<char>) -> Seq<char>
    decreases text.len(),
{
    if text.len() > 0 && is_white(text.last()) {
        trimmed_end(text.drop_last())
    } else {
        text
    }
}

/// A text without the white space around it.
pub open spec fn trimmed(text: Seq<char>) -> Seq<char> {
    trimmed_end(trimmed_start(text))
}

fn white(c: char) -> (result: bool)
    ensures
        result == is_white(c),
{
    let code: u32 = c as u32;
    (0x09 <= code && code <= 0x0d) || code == 0x20 || code == 0x85 || code == 0xa0 || code == 0x1680
        || (0x2000 <= code && code <= 0x200a) || code == 0x2028 || code == 0x2029 || code == 0x202f
        || code == 0x205f || code == 0x3000
}

/// The characters of a text without the white space around it.
pub fn trim(text: &str) -> (chars: Vec<char>)
    ensures
        chars@ == trimmed(text@),
{
    let all = characters(text);
    let mut start: usize = 0;
    proof {
        assert(text@.skip(0) =~= text@);
    }
    while start < all.len() && white(all[start])
        invariant
            all@ == text@,
            start <= all@.len(),
            trimmed_start(text@) == trimmed_start(text@.skip(start as int)),
        decreases all@.len() - start,
    {
        proof {
            assert(text@.skip(start as int).drop_first() =~= text@.skip(start + 1));
        }
        start = start + 1;
    }
    let ghost rest = text@.skip(start as int);
    assert(trimmed_start(text@) == rest);
    let mut end: usize = all.len();
    proof {
        assert(rest.take(rest.len() as int) =~= rest);
    }
    while end > start && white(all[end - 1])
        invariant
            all@ == text@,
            start <= end <= all@.len(),
            rest == text@.skip(start as int),
            trimmed_end(rest) == trimmed_end(rest.take(end - start)),
        decreases end - start,
    {
        proof {
            assert(rest.take(end - start).drop_last() =~= rest.take(end - start - 1));
        }
        end = end - 1;
    }
    let mut chars: Vec<char> = Vec::with_capacity(end - start);
    for i in start..end
        invariant
            all@ == text@,
            start <= end <= all@.len(),
            chars@.len() == i - start,
            forall|j: int| 0 <= j < chars@.len() ==> chars@[j] == text@[start + j],
    {
        chars.push(all[i]);
    }
    proof {
        assert(trimmed_end(rest.take(end - start)) == rest.take(end - start));
        assert(chars@ =~= rest.take(end - start));
    }
    chars
}

#[derive(Clone, Copy, Debug, PartialEq, Eq, Structural)]
pub enum Language {
    English,
    Polish,
}

/// A separator of the parts of a language code.
pub open spec fn is_separator(c: char) -> bool {
    c == '-' || c == '_'
}

/// A text up to its first separator.
pub open spec fn first_part(text: Seq<char>) -> Seq<char>
    decreases text.len(),
{
    if text.len() == 0 || is_separator(text[0]) {
        Seq::empty()
    } else {
        seq![text[0]] + first_part(text.drop_first())
    }
}

/// The language of a code such as `pl-PL`, whatever its case.
pub open spec fn language_of(code: Seq<char>) -> Option<Language> {
    let part = first_part(crate::device::lowered(trimmed(code)));
    if part == seq!['e', 'n'] {
        Some(Language::English)
    } else if part == seq!['p', 'l'] {
        Some(Language::Polish)
    } else {
        None
    }
}

proof fn lemma_first_part(text: Seq<char>, len: int)
    requires
        0 <= len <= text.len(),
        forall|i: int| 0 <= i < len ==> !is_separator(#[trigger] text[i]),
        len == text.len() || is_separator(text[len]),
    ensures
        first_part(text) == text.take(len),
    decreases len,
{
    if len > 0 {
        lemma_first_part(text.drop_first(), len - 1);
        assert(seq![text[0]] + text.drop_first().take(len - 1) =~= text.take(len));
    } else {
        assert(text.take(0) =~= Seq::<char>::empty());
    }
}

/// The part of the number of a language that names the language itself.
pub const PRIMARY_LANGUAGES: u16 = 0x400;

/// The number of Polish.
pub const LANG_POLISH: u16 = 0x15;

impl Language {
    pub fn parse(code: &str) -> (language: Option<Self>)
        ensures
            language == language_of(code@),
    {
        let chars = trim(code);
        let mut len: usize = 0;
        while len < chars.len() && chars[len] != '-' && chars[len] != '_'
            invariant
                len <= chars@.len(),
                forall|i: int| 0 <= i < len ==> !is_separator(#[trigger] chars@[i]),
            decreases chars@.len() - len,
        {
            len = len + 1;
        }
        let ghost low = crate::device::lowered(chars@);
        proof {
            assert forall|i: int| 0 <= i < chars@.len() implies is_separator(#[trigger] low[i])
                == is_separator(chars@[i]) by {
            }
            lemma_first_part(low, len as int);
        }
        if len != 2 {
            proof {
                assert(low.take(len as int).len() == len);
            }
            return None;
        }
        let (a, b): (char, char) = (crate::device::lower(chars[0]), crate::device::lower(chars[1]));
        proof {
            assert(low.take(2) =~= seq![a, b]);
            assert(seq![a, b][0] == a && seq![a, b][1] == b);
            assert(seq!['e', 'n'][0] == 'e' && seq!['e', 'n'][1] == 'n');
            assert(seq!['p', 'l'][0] == 'p' && seq!['p', 'l'][1] == 'l');
        }
        if a == 'e' && b == 'n' {
            Some(Language::English)
        } else if a == 'p' && b == 'l' {
            Some(Language::Polish)
        } else {
            None
        }
    }

    /// The code under which the translations of the window are found.
    pub fn code(self) -> (code: &'static str)
        ensures
            code@ == match self {
                Language::English => ""@,
                Language::Polish => "pl"@,
            },
    {
        match self {
            Language::English => "",
            Language::Polish => "pl",
        }
    }

    /// The language to use: the one that was asked for, else the one of the
    /// system, else English.
    pub fn current(wish: Option<&str>, ui_language: u16) -> (language: Self)
        ensures
            language == preferred(wished(wish), ui_language),
    {
        if let Some(code) = wish {
            if let Some(language) = Self::parse(code) {
                return language;
            }
        }
        if ui_language % PRIMARY_LANGUAGES == LANG_POLISH {
            Language::Polish
        } else {
            Language::English
        }
    }

    /// The text, or whatever it is, of this language.
    pub fn pick<T>(self, english: T, polish: T) -> (picked: T)
        ensures
            picked == match self {
                Language::English => english,
                Language::Polish => polish,
            },
    {
        match self {
            Language::English => english,
            Language::Polish => polish,
        }
    }
}

/// A wish as text.
pub open spec fn wished(wish: Option<&str>) -> Option<Seq<char>> {
    match wish {
        Some(code) => Some(code@),
        None => None,
    }
}

/// The language that was asked for, else the one of the system, else English.
pub open spec fn preferred(wish: Option<Seq<char>>, ui_language: u16) -> Language {
    match wish {
        Some(code) if language_of(code) is Some => language_of(code).unwrap(),
        _ => if ui_language % PRIMARY_LANGUAGES == LANG_POLISH {
            Language::Polish
        } else {
            Language::English
        },
    }
}

/// The language of a process. It is chosen once.
#[derive(Clone, Copy, Debug, PartialEq, Eq, Structural)]
pub struct ChosenLanguage {
    pub language: Option<Language>,
}

impl ChosenLanguage {
    /// The language after it was asked for.
    pub open spec fn settled(self, wish: Option<Seq<char>>, ui_language: u16) -> Language {
        match self.language {
            Some(language) => language,
            None => preferred(wish, ui_language),
        }
    }

    /// The language to use. The first call chooses it.
    pub fn current(&mut self, wish: Option<&str>, ui_language: u16) -> (language: Language)
        ensures
            language == old(self).settled(wished(wish), ui_language),
            *final(self) == (ChosenLanguage { language: Some(language) }),
    {
        match self.language {
            Some(language) => language,
            None => {
                let language = Language::current(wish, ui_language);
                self.language = Some(language);
                language
            },
        }
    }
}

/// The language that a process gets for each of its calls, given what was wished
/// for and the language of the system at that time.
pub open spec fn answers(
    chosen: ChosenLanguage,
    calls: Seq<(Option<Seq<char>>, u16)>,
) -> Seq<Language>
    decreases calls.len(),
{
    if calls.len() == 0 {
        Seq::empty()
    } else {
        let language = chosen.settled(calls[0].0, calls[0].1);
        seq![language] + answers(
            ChosenLanguage { language: Some(language) },
            calls.subrange(1, calls.len() as int),
        )
    }
}

/// Every call of a process gets the language that the first one chose, even if
/// the wish or the system has changed.
pub proof fn law_the_language_is_chosen_once(calls: Seq<(Option<Seq<char>>, u16)>, i: int)
    requires
        0 <= i < calls.len(),
    ensures
        answers(ChosenLanguage { language: None }, calls).len() == calls.len(),
        answers(ChosenLanguage { language: None }, calls)[i] == preferred(
            calls[0].0,
            calls[0].1,
        ),
{
    let language = preferred(calls[0].0, calls[0].1);
    lemma_the_choice_stays(language, calls.subrange(1, calls.len() as int));
}

proof fn lemma_the_choice_stays(language: Language, calls: Seq<(Option<Seq<char>>, u16)>)
    ensures
        ({
            let given = answers(ChosenLanguage { language: Some(language) }, calls);
            &&& given.len() == calls.len()
            &&& forall|i: int| 0 <= i < given.len() ==> given[i] == language
        }),
    decreases calls.len(),
{
    if calls.len() > 0 {
        lemma_the_choice_stays(language, calls.subrange(1, calls.len() as int));
    }
}

/// The text in a language.
pub fn tr(language: Language, english: &'static str, polish: &'static str) -> (text: &'static str)
    ensures
        text@ == match language {
            Language::English => english@,
            Language::Polish => polish@,
        },
{
    language.pick(english, polish)
}

} // verus!
