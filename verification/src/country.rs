//! Countries and major cities from the bundled world city table.

use vstd::prelude::*;
use crate::order::{insert_sorted, strictly_sorted, chars_eq};
use crate::text::{chars_of, string_from_chars};

verus! {

/// Number of entries of the city table (`cities::all()`).
pub const CITY_COUNT: usize = 10596;

/// Country and city name of entry `i` of the city table.
pub uninterp spec fn city_table_entry(i: int) -> (Seq<char>, Seq<char>);

/// `str::to_lowercase` applied to a text.
pub uninterp spec fn lowercase_of(s: Seq<char>) -> Seq<char>;

/// `cities::all()[i]`: the country and the city name of entry `i`, present exactly for the
/// `CITY_COUNT` entries of the table.
#[verifier::external_body]
fn city_at(i: usize) -> (r: Option<(String, String)>)
    ensures
        r is Some <==> i < CITY_COUNT,
        r matches Some(p) ==> (p.0@, p.1@) == city_table_entry(i as int),
{
    cities::all().get(i).map(|c| (c.country.to_string(), c.city.to_string()))
}

/// `str::to_lowercase`: Unicode lower-case mapping of `s`.
#[verifier::external_body]
fn to_lowercase(s: &str) -> (r: String)
    ensures
        r@ == lowercase_of(s@),
{
    s.to_lowercase()
}

/// A city of the table: its position, name and country.
#[derive(Debug, PartialEq, Eq)]
pub struct CityRef {
    pub index: usize,
    pub name: String,
    pub country: String,
}

/// Canonical spelling of a lower-case country name (common aliases resolved).
pub open spec fn spec_country_alias(l: Seq<char>) -> Seq<char> {
    if l == "usa"@ || l == "us"@ || l == "united states"@ || l == "america"@ {
        "united states"@
    } else if l == "uk"@ || l == "england"@ || l == "britain"@ || l == "great britain"@ {
        "united kingdom"@
    } else if l == "turkey"@ || l == "t\u{00fc}rkiye"@ || l == "turkiye"@ {
        "turkey"@
    } else if l == "russia"@ || l == "rf"@ {
        "russia"@
    } else if l == "south korea"@ || l == "korea"@ {
        "south korea"@
    } else if l == "uae"@ || l == "emirates"@ {
        "united arab emirates"@
    } else {
        l
    }
}

/// Canonical lower-case name of the country the user typed.
pub open spec fn spec_normalize_country(input: Seq<char>) -> Seq<char> {
    spec_country_alias(lowercase_of(input))
}

/// Positions, among the first `n` table entries, of the cities whose lower-cased country is `target`.
pub open spec fn matching_upto(n: int, target: Seq<char>) -> Seq<int>
    decreases n,
{
    if n <= 0 {
        Seq::empty()
    } else {
        let init = matching_upto(n - 1, target);
        if lowercase_of(city_table_entry(n - 1).0) == target {
            init.push(n - 1)
        } else {
            init
        }
    }
}

/// Positions of the first `limit` cities of the country the user typed.
pub open spec fn spec_major_city_indices(country: Seq<char>, limit: nat) -> Seq<int> {
    let m = matching_upto(CITY_COUNT as int, spec_normalize_country(country));
    if m.len() <= limit { m } else { m.take(limit as int) }
}

/// Countries of the first `n` table entries.
pub open spec fn countries_upto(n: int) -> Set<Seq<char>>
    decreases n,
{
    if n <= 0 {
        Set::empty()
    } else {
        countries_upto(n - 1).insert(city_table_entry(n - 1).0)
    }
}

fn lower_text_is(l: &Vec<char>, s: &str) -> (r: bool)
    ensures
        r == (l@ == s@),
{
    let v = chars_of(s);
    chars_eq(l, &v)
}

/// Canonical lower-case name of a country, with common aliases resolved
/// ("usa" is "united states", "uk" is "united kingdom", ...).
pub fn normalize_country(input: &str) -> (r: String)
    ensures
        r@ == spec_normalize_country(input@),
{
    let lower = to_lowercase(input);
    let l = chars_of(lower.as_str());
    if lower_text_is(&l, "usa") || lower_text_is(&l, "us") || lower_text_is(&l, "united states")
        || lower_text_is(&l, "america") {
        "united states".to_owned()
    } else if lower_text_is(&l, "uk") || lower_text_is(&l, "england") || lower_text_is(&l, "britain")
        || lower_text_is(&l, "great britain") {
        "united kingdom".to_owned()
    } else if lower_text_is(&l, "turkey") || lower_text_is(&l, "t\u{00fc}rkiye") || lower_text_is(&l, "turkiye") {
        "turkey".to_owned()
    } else if lower_text_is(&l, "russia") || lower_text_is(&l, "rf") {
        "russia".to_owned()
    } else if lower_text_is(&l, "south korea") || lower_text_is(&l, "korea") {
        "south korea".to_owned()
    } else if lower_text_is(&l, "uae") || lower_text_is(&l, "emirates") {
        "united arab emirates".to_owned()
    } else {
        lower
    }
}

proof fn lemma_matching_prefix(i: int, n: int, target: Seq<char>)
    requires
        0 <= i <= n,
    ensures
        matching_upto(n, target).len() >= matching_upto(i, target).len(),
        matching_upto(n, target).take(matching_upto(i, target).len() as int) == matching_upto(i, target),
    decreases n - i,
{
    if i < n {
        lemma_matching_prefix(i, n - 1, target);
        let a = matching_upto(n - 1, target);
        let k = matching_upto(i, target).len() as int;
        if lowercase_of(city_table_entry(n - 1).0) == target {
            assert(a.push(n - 1).take(k) == a.take(k));
        }
    }
}

/// The first `limit` cities of the given country, in table order; the country name is matched
/// case-insensitively after resolving common aliases.
pub fn get_major_cities(country: &str, limit: usize) -> (r: Vec<CityRef>)
    ensures
        r@.map_values(|c: CityRef| c.index as int) == spec_major_city_indices(country@, limit as nat),
        forall|k: int| 0 <= k < r@.len() ==> (#[trigger] r@[k].country@, r@[k].name@)
            == city_table_entry(r@[k].index as int),
{
    let target = normalize_country(country);
    let t = chars_of(target.as_str());
    let ghost tv = target@;
    let mut r: Vec<CityRef> = Vec::new();
    let mut i: usize = 0;
    while i < CITY_COUNT && r.len() < limit
        invariant
            i <= CITY_COUNT,
            r@.len() <= limit,
            t@ == tv,
            tv == spec_normalize_country(country@),
            r@.map_values(|c: CityRef| c.index as int) == matching_upto(i as int, tv),
            forall|k: int| 0 <= k < r@.len() ==> (#[trigger] r@[k].country@, r@[k].name@)
                == city_table_entry(r@[k].index as int),
        decreases CITY_COUNT - i,
    {
        let entry = city_at(i);
        match entry {
            Some((c, name)) => {
                let lc = to_lowercase(c.as_str());
                let lv = chars_of(lc.as_str());
                if chars_eq(&lv, &t) {
                    let ghost before = r@;
                    r.push(CityRef { index: i, name, country: c });
                    proof {
                        assert(r@.map_values(|c: CityRef| c.index as int) == before.map_values(
                            |c: CityRef| c.index as int,
                        ).push(i as int));
                    }
                }
            },
            None => {},
        }
        i = i + 1;
    }
    proof {
        lemma_matching_prefix(i as int, CITY_COUNT as int, tv);
        let m = matching_upto(CITY_COUNT as int, tv);
        if i < CITY_COUNT {
            assert(m.take(limit as int) == matching_upto(i as int, tv));
        } else {
            assert(m == matching_upto(i as int, tv));
        }
    }
    r
}

/// Every country of the table, once each, in ascending order.
pub fn list_countries() -> (r: Vec<String>)
    ensures
        strictly_sorted(r@.map_values(|s: String| s@)),
        r@.map_values(|s: String| s@).to_set() == countries_upto(CITY_COUNT as int),
{
    let mut sorted: Vec<Vec<char>> = Vec::new();
    let mut i: usize = 0;
    assert(sorted@.map_values(|e: Vec<char>| e@).to_set() == Set::<Seq<char>>::empty());
    while i < CITY_COUNT
        invariant
            i <= CITY_COUNT,
            strictly_sorted(sorted@.map_values(|e: Vec<char>| e@)),
            sorted@.map_values(|e: Vec<char>| e@).to_set() == countries_upto(i as int),
        decreases CITY_COUNT - i,
    {
        match city_at(i) {
            Some((c, _)) => {
                let cv = chars_of(c.as_str());
                insert_sorted(&mut sorted, cv);
            },
            None => {},
        }
        i = i + 1;
    }
    let mut r: Vec<String> = Vec::new();
    let mut k: usize = 0;
    while k < sorted.len()
        invariant
            k <= sorted@.len(),
            r@.len() == k,
            forall|j: int| 0 <= j < k ==> #[trigger] r@[j]@ == sorted@[j]@,
        decreases sorted@.len() - k,
    {
        let s = string_from_chars(&sorted[k]);
        r.push(s);
        k = k + 1;
    }
    assert(r@.map_values(|s: String| s@) == sorted@.map_values(|e: Vec<char>| e@));
    r
}

/// Country names match case-insensitively: two spellings with the same lower-case form name the
/// same cities.
pub proof fn law_country_case_insensitive(a: Seq<char>, b: Seq<char>, limit: nat)
    requires
        lowercase_of(a) == lowercase_of(b),
    ensures
        spec_major_city_indices(a, limit) == spec_major_city_indices(b, limit),
{
}

/// A smaller limit gives a prefix of what a larger one gives, and never more than the limit.
pub proof fn law_major_cities_prefix(country: Seq<char>, small: nat, large: nat)
    requires
        small <= large,
    ensures
        spec_major_city_indices(country, small).len() <= small,
        spec_major_city_indices(country, large).len() >= spec_major_city_indices(country, small).len(),
        spec_major_city_indices(country, large).take(spec_major_city_indices(country, small).len() as int)
            == spec_major_city_indices(country, small),
{
    let m = matching_upto(CITY_COUNT as int, spec_normalize_country(country));
    if m.len() > small {
        if m.len() > large {
            assert(m.take(large as int).take(small as int) == m.take(small as int));
        } else {
            assert(m.take(small as int) == m.take(small as int));
        }
    } else {
        if m.len() > large {
            assert(false);
        }
        assert(m.take(m.len() as int) == m);
    }
}

/// Canonical country names are left as they are: resolving an alias twice gives the same as once.
pub proof fn law_alias_idempotent(l: Seq<char>)
    ensures
        spec_country_alias(spec_country_alias(l)) == spec_country_alias(l),
{
    reveal_strlit("usa");
    reveal_strlit("us");
    reveal_strlit("united states");
    reveal_strlit("america");
    reveal_strlit("uk");
    reveal_strlit("england");
    reveal_strlit("britain");
    reveal_strlit("great britain");
    reveal_strlit("united kingdom");
    reveal_strlit("turkey");
    reveal_strlit("t\u{00fc}rkiye");
    reveal_strlit("turkiye");
    reveal_strlit("russia");
    reveal_strlit("rf");
    reveal_strlit("south korea");
    reveal_strlit("korea");
    reveal_strlit("uae");
    reveal_strlit("emirates");
    reveal_strlit("united arab emirates");
    assert("usa"@.len() == 3 && "us"@.len() == 2 && "america"@.len() == 7);
    assert("uk"@.len() == 2 && "england"@.len() == 7 && "britain"@.len() == 7);
    assert("united kingdom"@.len() == 14 && "united arab emirates"@.len() == 20);
    assert("t\u{00fc}rkiye"@.len() == 7 && "turkiye"@.len() == 7 && "rf"@.len() == 2);
    assert("south korea"@.len() == 11 && "korea"@.len() == 5);
    assert("uae"@.len() == 3 && "emirates"@.len() == 8);
    assert("united states"@[0] != "great britain"@[0]);
    assert("turkey"@[0] != "russia"@[0]);
}

/// Every alias resolves to its country's canonical name, and only the aliases of a country do:
/// "usa", "us", "united states" and "america" are "united states"; "uk", "england", "britain",
/// "great britain" and "united kingdom" are "united kingdom"; "turkey", "türkiye" and "turkiye"
/// are "turkey"; "russia" and "rf" are "russia"; "south korea" and "korea" are "south korea";
/// "uae", "emirates" and "united arab emirates" are "united arab emirates"; any other name is
/// left as it is.
pub proof fn law_country_aliases(l: Seq<char>)
    ensures
        spec_country_alias(l) == "united states"@
            <==> (l == "usa"@ || l == "us"@ || l == "united states"@ || l == "america"@),
        spec_country_alias(l) == "united kingdom"@
            <==> (l == "uk"@ || l == "england"@ || l == "britain"@ || l == "great britain"@
                || l == "united kingdom"@),
        spec_country_alias(l) == "turkey"@
            <==> (l == "turkey"@ || l == "t\u{00fc}rkiye"@ || l == "turkiye"@),
        spec_country_alias(l) == "russia"@ <==> (l == "russia"@ || l == "rf"@),
        spec_country_alias(l) == "south korea"@ <==> (l == "south korea"@ || l == "korea"@),
        spec_country_alias(l) == "united arab emirates"@
            <==> (l == "uae"@ || l == "emirates"@ || l == "united arab emirates"@),
        !(l == "usa"@ || l == "us"@ || l == "america"@ || l == "uk"@ || l == "england"@
            || l == "britain"@ || l == "great britain"@ || l == "t\u{00fc}rkiye"@
            || l == "turkiye"@ || l == "rf"@ || l == "korea"@ || l == "uae"@ || l == "emirates"@)
            ==> spec_country_alias(l) == l,
{
    reveal_strlit("usa");
    reveal_strlit("us");
    reveal_strlit("united states");
    reveal_strlit("america");
    reveal_strlit("uk");
    reveal_strlit("england");
    reveal_strlit("britain");
    reveal_strlit("great britain");
    reveal_strlit("united kingdom");
    reveal_strlit("turkey");
    reveal_strlit("t\u{00fc}rkiye");
    reveal_strlit("turkiye");
    reveal_strlit("russia");
    reveal_strlit("rf");
    reveal_strlit("south korea");
    reveal_strlit("korea");
    reveal_strlit("uae");
    reveal_strlit("emirates");
    reveal_strlit("united arab emirates");
    assert("usa"@.len() == 3 && "us"@.len() == 2 && "america"@.len() == 7);
    assert("united states"@.len() == 13 && "great britain"@.len() == 13);
    assert("uk"@.len() == 2 && "england"@.len() == 7 && "britain"@.len() == 7);
    assert("united kingdom"@.len() == 14 && "united arab emirates"@.len() == 20);
    assert("turkey"@.len() == 6 && "russia"@.len() == 6);
    assert("t\u{00fc}rkiye"@.len() == 7 && "turkiye"@.len() == 7 && "rf"@.len() == 2);
    assert("south korea"@.len() == 11 && "korea"@.len() == 5);
    assert("uae"@.len() == 3 && "emirates"@.len() == 8);
    assert("united states"@[0] != "great britain"@[0]);
    assert("turkey"@[0] != "russia"@[0]);
    assert("america"@[0] == 'a' && "england"@[0] == 'e' && "britain"@[0] == 'b');
    assert("turkiye"@[0] == 't' && "t\u{00fc}rkiye"@[0] == 't');
    assert("us"@[1] == 's' && "uk"@[1] == 'k' && "rf"@[0] == 'r');
    assert("usa"@[1] == 's' && "uae"@[1] == 'a');
}

} // verus!
