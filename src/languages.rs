use vstd::prelude::*;

use crate::text::str_eq;

verus! {

/// The input languages a visitor can pick.
#[derive(Clone, Copy, Debug, PartialEq, Eq, Structural)]
pub enum Languages {
    EN,
    JP,
    CN,
    KR,
    ES,
    FR,
    IT,
    DE,
    RU,
    PL,
}

/// The input-method engine identifier of a language.
pub open spec fn engine_of(l: Languages) -> Seq<char> {
    match l {
        Languages::EN => "xkb:us::eng"@,
        Languages::JP => "anthy"@,
        Languages::CN => "libpinyin"@,
        Languages::KR => "hangul"@,
        Languages::ES => "xkb:es::spa"@,
        Languages::FR => "xkb:fr::fra"@,
        Languages::IT => "xkb:it::ita"@,
        Languages::DE => "xkb:de::deu"@,
        Languages::RU => "xkb:ru::rus"@,
        Languages::PL => "xkb:pl::pol"@,
    }
}

/// The two-letter code under which a language is shown.
pub open spec fn code_of(l: Languages) -> Seq<char> {
    match l {
        Languages::EN => "EN"@,
        Languages::JP => "JP"@,
        Languages::CN => "CN"@,
        Languages::KR => "KR"@,
        Languages::ES => "ES"@,
        Languages::FR => "FR"@,
        Languages::IT => "IT"@,
        Languages::DE => "DE"@,
        Languages::RU => "RU"@,
        Languages::PL => "PL"@,
    }
}

/// Every language, in declaration order.
pub open spec fn all_languages() -> Seq<Languages> {
    seq![
        Languages::EN,
        Languages::JP,
        Languages::CN,
        Languages::KR,
        Languages::ES,
        Languages::FR,
        Languages::IT,
        Languages::DE,
        Languages::RU,
        Languages::PL,
    ]
}

impl Languages {
    /// The input-method engine identifier of this language.
    pub fn value(&self) -> (r: &'static str)
        ensures
            r@ == engine_of(*self),
    {
        match self {
            Languages::EN => "xkb:us::eng",
            Languages::JP => "anthy",
            Languages::CN => "libpinyin",
            Languages::KR => "hangul",
            Languages::ES => "xkb:es::spa",
            Languages::FR => "xkb:fr::fra",
            Languages::IT => "xkb:it::ita",
            Languages::DE => "xkb:de::deu",
            Languages::RU => "xkb:ru::rus",
            Languages::PL => "xkb:pl::pol",
        }
    }

    /// The language whose engine identifier is `value`, if any.
    pub fn from_value(value: &str) -> (r: Option<Languages>)
        ensures
            match r {
                Some(l) => engine_of(l) == value@,
                None => forall|l: Languages| engine_of(l) != value@,
            },
    {
        let all = Languages::all();
        let mut i: usize = 0;
        while i < all.len()
            invariant
                all@ == all_languages(),
                0 <= i <= all.len(),
                forall|j: int| 0 <= j < i ==> engine_of(all@[j]) != value@,
            decreases all.len() - i,
        {
            if str_eq(all[i].value(), value) {
                return Some(all[i]);
            }
            i = i + 1;
        }
        assert forall|l: Languages| engine_of(l) != value@ by {
            assert(all_languages().contains(l)) by {
                match l {
                    Languages::EN => assert(all_languages()[0] == l),
                    Languages::JP => assert(all_languages()[1] == l),
                    Languages::CN => assert(all_languages()[2] == l),
                    Languages::KR => assert(all_languages()[3] == l),
                    Languages::ES => assert(all_languages()[4] == l),
                    Languages::FR => assert(all_languages()[5] == l),
                    Languages::IT => assert(all_languages()[6] == l),
                    Languages::DE => assert(all_languages()[7] == l),
                    Languages::RU => assert(all_languages()[8] == l),
                    Languages::PL => assert(all_languages()[9] == l),
                }
            }
        }
        None
    }

    /// The language shown under the two-letter code `s`.
    pub fn from_str(s: &str) -> (r: Result<Languages, ()>)
        ensures
            match r {
                Ok(l) => code_of(l) == s@,
                Err(_) => forall|l: Languages| code_of(l) != s@,
            },
    {
        let all = Languages::all();
        let mut i: usize = 0;
        while i < all.len()
            invariant
                all@ == all_languages(),
                0 <= i <= all.len(),
                forall|j: int| 0 <= j < i ==> code_of(all@[j]) != s@,
            decreases all.len() - i,
        {
            let code = all[i].to_string();
            if str_eq(code.as_str(), s) {
                return Ok(all[i]);
            }
            i = i + 1;
        }
        assert forall|l: Languages| code_of(l) != s@ by {
            assert(all_languages().contains(l)) by {
                match l {
                    Languages::EN => assert(all_languages()[0] == l),
                    Languages::JP => assert(all_languages()[1] == l),
                    Languages::CN => assert(all_languages()[2] == l),
                    Languages::KR => assert(all_languages()[3] == l),
                    Languages::ES => assert(all_languages()[4] == l),
                    Languages::FR => assert(all_languages()[5] == l),
                    Languages::IT => assert(all_languages()[6] == l),
                    Languages::DE => assert(all_languages()[7] == l),
                    Languages::RU => assert(all_languages()[8] == l),
                    Languages::PL => assert(all_languages()[9] == l),
                }
            }
        }
        Err(())
    }

    /// The two-letter code of this language.
    pub fn to_string(&self) -> (r: String)
        ensures
            r@ == code_of(*self),
    {
        let code: &str = match self {
            Languages::EN => "EN",
            Languages::JP => "JP",
            Languages::CN => "CN",
            Languages::KR => "KR",
            Languages::ES => "ES",
            Languages::FR => "FR",
            Languages::IT => "IT",
            Languages::DE => "DE",
            Languages::RU => "RU",
            Languages::PL => "PL",
        };
        code.to_owned()
    }

    /// Every language, in declaration order.
    pub fn all() -> (r: Vec<Languages>)
        ensures
            r@ == all_languages(),
    {
        let r = vec![
            Languages::EN,
            Languages::JP,
            Languages::CN,
            Languages::KR,
            Languages::ES,
            Languages::FR,
            Languages::IT,
            Languages::DE,
            Languages::RU,
            Languages::PL,
        ];
        assert(r@ =~= all_languages());
        r
    }
}

} // verus!
