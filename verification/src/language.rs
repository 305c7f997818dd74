use vstd::prelude::*;

use crate::strmap::StrMap;
use crate::text::{lines, owned, spec_lines, spec_split_once, split_once, str_eq};

verus! {

/// The languages that the user interface can be shown in.
#[derive(Debug, PartialEq, Eq, Clone, Copy, Hash)]
pub enum Langs {
    EnUS,
    EnLT,
    JaJP,
    EsPR,
    ZhCN,
}

/// The language that a language setting stands for: 1 Japanese, 2 Spanish, 3 Chinese,
/// 1337 leet, anything else English.
pub open spec fn spec_lang_of(value: i32) -> Langs {
    if value == 1 {
        Langs::JaJP
    } else if value == 2 {
        Langs::EsPR
    } else if value == 3 {
        Langs::ZhCN
    } else if value == 1337 {
        Langs::EnLT
    } else {
        Langs::EnUS
    }
}

/// The code of a language, which also names its dictionary file.
pub open spec fn spec_lang_code(l: Langs) -> Seq<char> {
    match l {
        Langs::EnUS => "enUS"@,
        Langs::EnLT => "enLT"@,
        Langs::JaJP => "jaJP"@,
        Langs::EsPR => "esPR"@,
        Langs::ZhCN => "zhCN"@,
    }
}

impl From<i32> for Langs {
    fn from(value: i32) -> (r: Self) {
        if value == 1 {
            Langs::JaJP
        } else if value == 2 {
            Langs::EsPR
        } else if value == 3 {
            Langs::ZhCN
        } else if value == 1337 {
            Langs::EnLT
        } else {
            Langs::EnUS
        }
    }
}

impl vstd::std_specs::convert::FromSpecImpl<i32> for Langs {
    open spec fn obeys_from_spec() -> bool {
        true
    }

    open spec fn from_spec(v: i32) -> Self {
        spec_lang_of(v)
    }
}

impl Langs {
    /// Every language, in the order the language menu lists them.
    pub fn iter() -> (r: Vec<Langs>)
        ensures
            r@ == seq![Langs::EnUS, Langs::EnLT, Langs::JaJP, Langs::EsPR, Langs::ZhCN],
    {
        let mut r: Vec<Langs> = Vec::new();
        r.push(Langs::EnUS);
        r.push(Langs::EnLT);
        r.push(Langs::JaJP);
        r.push(Langs::EsPR);
        r.push(Langs::ZhCN);
        assert(r@ =~= seq![Langs::EnUS, Langs::EnLT, Langs::JaJP, Langs::EsPR, Langs::ZhCN]);
        r
    }

    /// The code of the language.
    pub fn as_code(&self) -> (r: String)
        ensures
            r@ == spec_lang_code(*self),
    {
        match self {
            Langs::EnUS => owned("enUS"),
            Langs::EnLT => owned("enLT"),
            Langs::JaJP => owned("jaJP"),
            Langs::EsPR => owned("esPR"),
            Langs::ZhCN => owned("zhCN"),
        }
    }

    /// The name of the language as the language menu shows it.
    pub fn to_string(&self) -> (r: String)
        ensures
            r@ == match *self {
                Langs::EnUS => "English"@,
                Langs::EnLT => "1337"@,
                Langs::JaJP => "\u{65e5}\u{672c}\u{8a9e}"@,
                Langs::EsPR => "espa\u{f1}ol"@,
                Langs::ZhCN => "\u{7b80}\u{4f53}\u{4e2d}\u{6587}"@,
            },
    {
        match self {
            Langs::EnUS => owned("English"),
            Langs::EnLT => owned("1337"),
            Langs::JaJP => owned("\u{65e5}\u{672c}\u{8a9e}"),
            Langs::EsPR => owned("espa\u{f1}ol"),
            Langs::ZhCN => owned("\u{7b80}\u{4f53}\u{4e2d}\u{6587}"),
        }
    }

    /// The language with the code `code`, if there is one.
    pub fn from_code(code: &str) -> (r: Option<Langs>)
        ensures
            match r {
                Some(l) => spec_lang_code(l) == code@,
                None => forall|l: Langs| spec_lang_code(l) != code@,
            },
    {
        let langs = Langs::iter();
        let mut i: usize = 0;
        while i < langs.len()
            invariant
                i <= langs@.len(),
                langs@ == seq![Langs::EnUS, Langs::EnLT, Langs::JaJP, Langs::EsPR, Langs::ZhCN],
                forall|j: int| 0 <= j < i ==> spec_lang_code(#[trigger] langs@[j]) != code@,
            decreases langs@.len() - i,
        {
            let c = langs[i].as_code();
            if str_eq(c.as_str(), code) {
                return Some(langs[i]);
            }
            i = i + 1;
        }
        proof {
            assert forall|l: Langs| spec_lang_code(l) != code@ by {
                match l {
                    Langs::EnUS => assert(langs@[0] == l),
                    Langs::EnLT => assert(langs@[1] == l),
                    Langs::JaJP => assert(langs@[2] == l),
                    Langs::EsPR => assert(langs@[3] == l),
                    Langs::ZhCN => assert(langs@[4] == l),
                }
            }
        }
        None
    }
}

/// The translations that the lines `lines` of a dictionary file define: each line with an
/// `=` maps the text before its first `=` to the text after it; a later line wins.
pub open spec fn spec_dict_of_lines(lines: Seq<Seq<char>>) -> Map<Seq<char>, Seq<char>>
    decreases lines.len(),
{
    if lines.len() == 0 {
        Map::empty()
    } else {
        let m = spec_dict_of_lines(lines.drop_last());
        match spec_split_once(lines.last(), '=') {
            Some((k, v)) => m.insert(k, v),
            None => m,
        }
    }
}

/// The translations that the dictionary file text `lang` defines.
pub open spec fn spec_parse_lang(lang: Seq<char>) -> Map<Seq<char>, Seq<char>> {
    spec_dict_of_lines(spec_lines(lang))
}

/// Reads a dictionary file: `key=translation` per line.
pub fn parse_lang(lang: String) -> (r: StrMap<String>)
    ensures
        r@ == spec_parse_lang(lang@),
{
    let ls = lines(lang.as_str());
    let ghost lv = ls.deep_view();
    let mut map: StrMap<String> = StrMap::new();
    let mut i: usize = 0;
    while i < ls.len()
        invariant
            i <= ls.len(),
            lv == ls.deep_view(),
            map@ == spec_dict_of_lines(lv.subrange(0, i as int)),
        decreases ls.len() - i,
    {
        proof {
            assert(lv.subrange(0, i + 1).drop_last() =~= lv.subrange(0, i as int));
            assert(lv[i as int] == ls@[i as int]@);
        }
        match split_once(ls[i].as_str(), '=') {
            Some((key, content)) => {
                map.insert(key, content);
            },
            None => {},
        }
        i = i + 1;
    }
    assert(lv.subrange(0, i as int) =~= lv);
    map
}

/// A language's dictionary: its built-in translations with those of the user's dictionary
/// file put over them.
pub fn merge_translations(defaults: StrMap<String>, user: &StrMap<String>) -> (r: StrMap<String>)
    ensures
        r@ == defaults@.union_prefer_right(user@),
{
    let mut dict = defaults;
    let n = user.len();
    let mut i: usize = 0;
    while i < n
        invariant
            i <= n,
            n == user.key_order().len(),
            dict@ == defaults@.union_prefer_right(
                user@.restrict(Set::new(|k: Seq<char>| exists|j: int| 0 <= j < i && user.key_order()[j] == k)),
            ),
        decreases n - i,
    {
        let (k, v) = user.entry_at(i);
        dict.insert(k.clone(), v.clone());
        proof {
            let s_old = Set::new(|x: Seq<char>| exists|j: int| 0 <= j < i && user.key_order()[j] == x);
            let s_new = Set::new(|x: Seq<char>| exists|j: int| 0 <= j < i + 1 && user.key_order()[j] == x);
            assert(s_new =~= s_old.insert(k@));
            assert(dict@ =~= defaults@.union_prefer_right(user@.restrict(s_new)));
        }
        i = i + 1;
    }
    proof {
        let s = Set::new(|x: Seq<char>| exists|j: int| 0 <= j < n && user.key_order()[j] == x);
        assert forall|k: Seq<char>| user@.contains_key(k) implies s.contains(k) by {
            user.lemma_key_order_covers(k);
        }
        assert(user@.restrict(s) =~= user@);
    }
    dict
}

/// The text shown for `key`: its translation in the chosen language's dictionary, else in
/// the English one, else the key itself.
pub fn localize(dict: &StrMap<String>, english: &StrMap<String>, key: &str) -> (r: String)
    ensures
        r@ == if dict@.contains_key(key@) {
            dict@[key@]
        } else if english@.contains_key(key@) {
            english@[key@]
        } else {
            key@
        },
{
    match dict.get(key) {
        Some(s) => s.clone(),
        None => match english.get(key) {
            Some(s) => s.clone(),
            None => owned(key),
        },
    }
}

/// A line of a user's dictionary file overrides the built-in translation of its key; keys
/// that the user's file does not define keep their built-in translation.
pub proof fn lemma_user_translation_wins(
    defaults: Map<Seq<char>, Seq<char>>,
    user: Map<Seq<char>, Seq<char>>,
    k: Seq<char>,
)
    ensures
        user.contains_key(k) ==> defaults.union_prefer_right(user)[k] == user[k],
        !user.contains_key(k) && defaults.contains_key(k) ==> defaults.union_prefer_right(
            user,
        )[k] == defaults[k],
{
}

/// In a dictionary file, the last line that defines a key decides its translation.
pub proof fn lemma_last_definition_wins(lines: Seq<Seq<char>>, k: Seq<char>, v: Seq<char>)
    requires
        lines.len() > 0,
        spec_split_once(lines.last(), '=') == Some((k, v)),
    ensures
        spec_dict_of_lines(lines)[k] == v,
        spec_dict_of_lines(lines).contains_key(k),
{
}

} // verus!
