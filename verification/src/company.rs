//! The seven fixed company identities and a total map from companies to
//! values, used for tile counts, share ledgers and headquarters locations.

use vstd::prelude::*;

verus! {

/// One of the seven fixed companies of the game.
#[derive(Debug, Clone, Copy, PartialEq, Eq, Structural, Hash)]
pub enum Company {
    Continental,
    Imperial,
    American,
    Festival,
    Worldwide,
    Luxor,
    Tower,
}

/// Numeric identity of each company, in declaration order.
pub open spec fn company_id(c: Company) -> int {
    match c {
        Company::Continental => 0,
        Company::Imperial => 1,
        Company::American => 2,
        Company::Festival => 3,
        Company::Worldwide => 4,
        Company::Luxor => 5,
        Company::Tower => 6,
    }
}

/// Inverse of [`company_id`] on `0..7`.
pub open spec fn company_from_id(id: int) -> Company {
    if id == 0 {
        Company::Continental
    } else if id == 1 {
        Company::Imperial
    } else if id == 2 {
        Company::American
    } else if id == 3 {
        Company::Festival
    } else if id == 4 {
        Company::Worldwide
    } else if id == 5 {
        Company::Luxor
    } else {
        Company::Tower
    }
}

impl Company {
    /// Numeric identity of this company.
    pub fn id(&self) -> (r: usize)
        ensures
            r == company_id(*self),
    {
        match self {
            Company::Continental => 0,
            Company::Imperial => 1,
            Company::American => 2,
            Company::Festival => 3,
            Company::Worldwide => 4,
            Company::Luxor => 5,
            Company::Tower => 6,
        }
    }

    /// The company whose [`Company::id`] is `val`.
    pub fn inv_id(val: u8) -> (r: Company)
        requires
            val < 7,
        ensures
            r == company_from_id(val as int),
            company_id(r) == val as int,
    {
        match val {
            0 => Company::Continental,
            1 => Company::Imperial,
            2 => Company::American,
            3 => Company::Festival,
            4 => Company::Worldwide,
            5 => Company::Luxor,
            _ => Company::Tower,
        }
    }

    /// The first letter of the company, for display on the board.
    pub fn char(&self) -> (r: char)
        ensures
            r == company_char(*self),
    {
        match self {
            Company::Continental => 'C',
            Company::Imperial => 'I',
            Company::American => 'A',
            Company::Festival => 'F',
            Company::Worldwide => 'W',
            Company::Luxor => 'L',
            Company::Tower => 'T',
        }
    }

    /// The company's full name.
    pub fn name(&self) -> (r: &'static str)
        ensures
            r@ == company_name(*self),
    {
        match self {
            Company::Continental => "Continental",
            Company::Imperial => "Imperial",
            Company::American => "American",
            Company::Festival => "Festival",
            Company::Worldwide => "Worldwide",
            Company::Luxor => "Luxor",
            Company::Tower => "Tower",
        }
    }
}

/// The display letter of each company.
pub open spec fn company_char(c: Company) -> char {
    match c {
        Company::Continental => 'C',
        Company::Imperial => 'I',
        Company::American => 'A',
        Company::Festival => 'F',
        Company::Worldwide => 'W',
        Company::Luxor => 'L',
        Company::Tower => 'T',
    }
}

/// The full name of each company.
pub open spec fn company_name(c: Company) -> Seq<char> {
    match c {
        Company::Continental => "Continental"@,
        Company::Imperial => "Imperial"@,
        Company::American => "American"@,
        Company::Festival => "Festival"@,
        Company::Worldwide => "Worldwide"@,
        Company::Luxor => "Luxor"@,
        Company::Tower => "Tower"@,
    }
}

/// Maps every possibility of the [`Company`] enum to a value.
#[derive(Debug, Clone, Copy, PartialEq, Eq, Hash)]
pub struct CompanyMap<T> {
    pub continental: T,
    pub imperial: T,
    pub american: T,
    pub festival: T,
    pub worldwide: T,
    pub luxor: T,
    pub tower: T,
}

impl<T> CompanyMap<T> {
    /// The value this map holds for company `c`.
    pub open spec fn spec_get(self, c: Company) -> T {
        match c {
            Company::Continental => self.continental,
            Company::Imperial => self.imperial,
            Company::American => self.american,
            Company::Festival => self.festival,
            Company::Worldwide => self.worldwide,
            Company::Luxor => self.luxor,
            Company::Tower => self.tower,
        }
    }

    /// The map with the value for company `c` replaced.
    pub open spec fn spec_set(self, c: Company, v: T) -> CompanyMap<T> {
        match c {
            Company::Continental => CompanyMap { continental: v, ..self },
            Company::Imperial => CompanyMap { imperial: v, ..self },
            Company::American => CompanyMap { american: v, ..self },
            Company::Festival => CompanyMap { festival: v, ..self },
            Company::Worldwide => CompanyMap { worldwide: v, ..self },
            Company::Luxor => CompanyMap { luxor: v, ..self },
            Company::Tower => CompanyMap { tower: v, ..self },
        }
    }

    /// Reads the value held for company `c`.
    pub fn get(&self, c: Company) -> (r: &T)
        ensures
            *r == self.spec_get(c),
    {
        match c {
            Company::Continental => &self.continental,
            Company::Imperial => &self.imperial,
            Company::American => &self.american,
            Company::Festival => &self.festival,
            Company::Worldwide => &self.worldwide,
            Company::Luxor => &self.luxor,
            Company::Tower => &self.tower,
        }
    }

    /// Replaces the value held for company `c`.
    pub fn set(&mut self, c: Company, v: T)
        ensures
            *final(self) == old(self).spec_set(c, v),
            final(self).spec_get(c) == v,
            forall|d: Company| d != c ==> final(self).spec_get(d) == old(self).spec_get(d),
    {
        match c {
            Company::Continental => self.continental = v,
            Company::Imperial => self.imperial = v,
            Company::American => self.american = v,
            Company::Festival => self.festival = v,
            Company::Worldwide => self.worldwide = v,
            Company::Luxor => self.luxor = v,
            Company::Tower => self.tower = v,
        }
    }
}

impl<T: Copy> CompanyMap<T> {
    /// A map holding the same value for every company.
    pub fn new(value: &T) -> (r: CompanyMap<T>)
        ensures
            forall|c: Company| r.spec_get(c) == *value,
    {
        CompanyMap {
            continental: *value,
            imperial: *value,
            american: *value,
            festival: *value,
            worldwide: *value,
            luxor: *value,
            tower: *value,
        }
    }
}

} // verus!

verus! {

use crate::text::{chars_eq_lit, chars_vec, lower_char, to_lower};

/// The company a string names, compared without regard to ASCII case: the
/// full name or its first letter.
pub open spec fn spec_parse_company(s: Seq<char>) -> Option<Company> {
    let l = s.map_values(|c: char| lower_char(c));
    if l == "c"@ || l == "continental"@ {
        Some(Company::Continental)
    } else if l == "i"@ || l == "imperial"@ {
        Some(Company::Imperial)
    } else if l == "a"@ || l == "american"@ {
        Some(Company::American)
    } else if l == "f"@ || l == "festival"@ {
        Some(Company::Festival)
    } else if l == "w"@ || l == "worldwide"@ {
        Some(Company::Worldwide)
    } else if l == "l"@ || l == "luxor"@ {
        Some(Company::Luxor)
    } else if l == "t"@ || l == "tower"@ {
        Some(Company::Tower)
    } else {
        None
    }
}

impl Company {
    /// Parses a company from its name or its first letter, in either case.
    pub fn parse(s: &str) -> (r: Result<Company, ()>)
        ensures
            r matches Ok(c) ==> spec_parse_company(s@) == Some(c),
            r is Err ==> spec_parse_company(s@) is None,
    {
        let v = chars_vec(s);
        let n = v.len();
        let mut low: Vec<char> = Vec::new();
        let mut i: usize = 0;
        while i < n
            invariant
                n == v@.len(),
                v@ == s@,
                i <= n,
                low@.len() == i,
                forall|j: int| 0 <= j < i ==> low@[j] == lower_char(v@[j]),
            decreases n - i,
        {
            low.push(to_lower(v[i]));
            i += 1;
        }
        proof {
            assert(low@ =~= s@.map_values(|c: char| lower_char(c)));
        }
        proof {
            reveal_strlit("c");
            reveal_strlit("continental");
            reveal_strlit("i");
            reveal_strlit("imperial");
            reveal_strlit("a");
            reveal_strlit("american");
            reveal_strlit("f");
            reveal_strlit("festival");
            reveal_strlit("w");
            reveal_strlit("worldwide");
            reveal_strlit("l");
            reveal_strlit("luxor");
            reveal_strlit("t");
            reveal_strlit("tower");
            assert(vstd::string::is_ascii("c"));
            assert(vstd::string::is_ascii("continental"));
            assert(vstd::string::is_ascii("i"));
            assert(vstd::string::is_ascii("imperial"));
            assert(vstd::string::is_ascii("a"));
            assert(vstd::string::is_ascii("american"));
            assert(vstd::string::is_ascii("f"));
            assert(vstd::string::is_ascii("festival"));
            assert(vstd::string::is_ascii("w"));
            assert(vstd::string::is_ascii("worldwide"));
            assert(vstd::string::is_ascii("l"));
            assert(vstd::string::is_ascii("luxor"));
            assert(vstd::string::is_ascii("t"));
            assert(vstd::string::is_ascii("tower"));
        }
        if chars_eq_lit(&low, "c") || chars_eq_lit(&low, "continental") {
            Ok(Company::Continental)
        } else if chars_eq_lit(&low, "i") || chars_eq_lit(&low, "imperial") {
            Ok(Company::Imperial)
        } else if chars_eq_lit(&low, "a") || chars_eq_lit(&low, "american") {
            Ok(Company::American)
        } else if chars_eq_lit(&low, "f") || chars_eq_lit(&low, "festival") {
            Ok(Company::Festival)
        } else if chars_eq_lit(&low, "w") || chars_eq_lit(&low, "worldwide") {
            Ok(Company::Worldwide)
        } else if chars_eq_lit(&low, "l") || chars_eq_lit(&low, "luxor") {
            Ok(Company::Luxor)
        } else if chars_eq_lit(&low, "t") || chars_eq_lit(&low, "tower") {
            Ok(Company::Tower)
        } else {
            Err(())
        }
    }
}

impl core::str::FromStr for Company {
    type Err = ();

    fn from_str(s: &str) -> Result<Self, Self::Err> {
        Company::parse(s)
    }
}

} // verus!
