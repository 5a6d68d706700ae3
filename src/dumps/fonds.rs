//! The datasets ("fonds") published as tarballs on the DILA server.
use vstd::prelude::*;

use crate::text::{owned, str_eq};

verus! {

/// Base address of the DILA open-data directory listings.
pub const BASE_URL: &'static str = "https://echanges.dila.gouv.fr/OPENDATA";

/// A dataset of the DILA open-data feed.
#[derive(Debug, Clone, Copy, PartialEq, Eq, PartialOrd, Ord, Hash, Structural)]
pub enum Fond {
    JORF,
    CNIL,
    JADE,
    LEGI,
    INCA,
    CASS,
    CAPP,
}

/// The error returned when a name is not the name of any dataset.
#[derive(Debug, Clone, Copy, PartialEq, Eq, Structural)]
pub struct NotAFond;

/// The short name of a dataset, used in file names and URLs.
pub open spec fn fond_name(f: Fond) -> Seq<char> {
    match f {
        Fond::JORF => "JORF"@,
        Fond::CNIL => "CNIL"@,
        Fond::JADE => "JADE"@,
        Fond::LEGI => "LEGI"@,
        Fond::INCA => "INCA"@,
        Fond::CASS => "CASS"@,
        Fond::CAPP => "CAPP"@,
    }
}

/// The dataset whose short name is `s`, if any.
pub open spec fn fond_of_name(s: Seq<char>) -> Result<Fond, NotAFond> {
    if s == "JORF"@ {
        Ok(Fond::JORF)
    } else if s == "CNIL"@ {
        Ok(Fond::CNIL)
    } else if s == "JADE"@ {
        Ok(Fond::JADE)
    } else if s == "LEGI"@ {
        Ok(Fond::LEGI)
    } else if s == "INCA"@ {
        Ok(Fond::INCA)
    } else if s == "CASS"@ {
        Ok(Fond::CASS)
    } else if s == "CAPP"@ {
        Ok(Fond::CAPP)
    } else {
        Err(NotAFond)
    }
}

/// Every dataset, in declaration order.
pub open spec fn all_fonds() -> Seq<Fond> {
    seq![Fond::JORF, Fond::CNIL, Fond::JADE, Fond::LEGI, Fond::INCA, Fond::CASS, Fond::CAPP]
}

/// The address of the directory listing of a dataset: `<base>/<name>/`.
pub open spec fn listing_url_of(f: Fond) -> Seq<char> {
    BASE_URL@ + "/"@ + fond_name(f) + "/"@
}

impl Fond {
    /// The short name of the dataset.
    pub fn as_str(&self) -> (r: &'static str)
        ensures
            r@ == fond_name(*self),
    {
        match self {
            Fond::JORF => "JORF",
            Fond::CNIL => "CNIL",
            Fond::JADE => "JADE",
            Fond::LEGI => "LEGI",
            Fond::INCA => "INCA",
            Fond::CASS => "CASS",
            Fond::CAPP => "CAPP",
        }
    }

    /// The short name of the dataset, as an owned string.
    pub fn to_string(&self) -> (r: String)
        ensures
            r@ == fond_name(*self),
    {
        owned(self.as_str())
    }

    /// The dataset named `value`, or `NotAFond`.
    pub fn try_from(value: String) -> (r: Result<Fond, NotAFond>)
        ensures
            r == fond_of_name(value@),
    {
        let s = value.as_str();
        if str_eq(s, "JORF") {
            Ok(Fond::JORF)
        } else if str_eq(s, "CNIL") {
            Ok(Fond::CNIL)
        } else if str_eq(s, "JADE") {
            Ok(Fond::JADE)
        } else if str_eq(s, "LEGI") {
            Ok(Fond::LEGI)
        } else if str_eq(s, "INCA") {
            Ok(Fond::INCA)
        } else if str_eq(s, "CASS") {
            Ok(Fond::CASS)
        } else if str_eq(s, "CAPP") {
            Ok(Fond::CAPP)
        } else {
            Err(NotAFond)
        }
    }

    /// Every dataset, in declaration order.
    pub fn all() -> (r: Vec<Fond>)
        ensures
            r@ == all_fonds(),
    {
        let r = vec![Fond::JORF, Fond::CNIL, Fond::JADE, Fond::LEGI, Fond::INCA, Fond::CASS, Fond::CAPP];
        assert(r@ =~= all_fonds());
        r
    }

    /// The address of the dataset's directory listing.
    pub fn listing_url(&self) -> (r: String)
        ensures
            r@ == listing_url_of(*self),
    {
        let mut u = owned(BASE_URL);
        u.append("/");
        u.append(self.as_str());
        u.append("/");
        u
    }
}

/// Reading back the name of a dataset gives that dataset.
pub proof fn lemma_name_round_trip(f: Fond)
    ensures
        fond_of_name(fond_name(f)) == Ok::<Fond, NotAFond>(f),
{
    reveal_strlit("JORF");
    reveal_strlit("CNIL");
    reveal_strlit("JADE");
    reveal_strlit("LEGI");
    reveal_strlit("INCA");
    reveal_strlit("CASS");
    reveal_strlit("CAPP");
    assert("JORF"@[0] == 'J' && "JORF"@[1] == 'O');
    assert("CNIL"@[0] == 'C' && "CNIL"@[1] == 'N');
    assert("JADE"@[0] == 'J' && "JADE"@[1] == 'A');
    assert("LEGI"@[0] == 'L');
    assert("INCA"@[0] == 'I');
    assert("CASS"@[0] == 'C' && "CASS"@[1] == 'A' && "CASS"@[2] == 'S');
    assert("CAPP"@[0] == 'C' && "CAPP"@[1] == 'A' && "CAPP"@[2] == 'P');
}

/// Every dataset is listed by `all`, and the names of two different datasets differ.
pub proof fn lemma_catalog_complete(f: Fond, g: Fond)
    ensures
        all_fonds().contains(f),
        f != g ==> fond_name(f) != fond_name(g),
{
    lemma_name_round_trip(f);
    lemma_name_round_trip(g);
    let i: int = match f {
        Fond::JORF => 0,
        Fond::CNIL => 1,
        Fond::JADE => 2,
        Fond::LEGI => 3,
        Fond::INCA => 4,
        Fond::CASS => 5,
        Fond::CAPP => 6,
    };
    assert(all_fonds()[i] == f);
}

} // verus!
