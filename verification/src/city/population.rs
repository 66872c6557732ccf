//! The citizens of a city.
pub mod mind;

use crate::city::population::mind::{char_made, chars_ready, mind_printable, mind_text, print_mind, random_char, Mind};
use crate::city::City;
use crate::language::{word_views, Word};
use crate::text::{chars_of, push_all, string_of};
use vstd::prelude::*;

verus! {

/// The citizens of a city, each with its own id.
pub type Population = Vec<Mind>;

/// The listings of the alive citizens among the first `n`, in order; the
/// written shares of habitual visits of citizen `j` are `scales[j]`.
pub open spec fn population_text(city: City, scales: Seq<(String, String)>, n: int) -> Seq<char>
    decreases n,
{
    if n <= 0 {
        Seq::empty()
    } else {
        population_text(city, scales, n - 1) + if city.citizens@[n - 1].alive {
            mind_text(city.citizens@[n - 1], city, scales[n - 1].0@, scales[n - 1].1@)
        } else {
            Seq::empty()
        }
    }
}

/// The listings of the alive citizens (see [`mind_text`]); `scales[j]`
/// holds the written shares of habitual shopping and social visits of
/// citizen `j`. Every alive citizen's listing must find what it looks up.
pub fn print_population(city: &City, scales: &Vec<(String, String)>) -> (r: String)
    requires
        scales.len() == city.citizens.len(),
        forall|j: int|
            0 <= j < city.citizens.len() && (#[trigger] city.citizens@[j]).alive ==> mind_printable(
                city.citizens@[j],
                *city,
            ),
    ensures
        r@ == population_text(*city, scales@, city.citizens.len() as int),
{
    let mut out: Vec<char> = Vec::new();
    let mut j: usize = 0;
    while j < city.citizens.len()
        invariant
            j <= city.citizens.len() == scales.len(),
            forall|q: int|
                0 <= q < city.citizens.len() && (#[trigger] city.citizens@[q]).alive ==> mind_printable(
                    city.citizens@[q],
                    *city,
                ),
            out@ == population_text(*city, scales@, j as int),
        decreases city.citizens.len() - j,
    {
        let m = &city.citizens[j];
        if m.alive {
            let text = print_mind(m, city, scales[j].0.as_str(), scales[j].1.as_str());
            let t = chars_of(text.as_str());
            push_all(&mut out, &t);
        }
        j = j + 1;
        assert(out@ =~= population_text(*city, scales@, j as int));
    }
    string_of(&out)
}

/// Fills the city with `size` new citizens (see [`random_char`]) of the
/// city's era, with last names; citizen `j`'s age adds `age_deviations[j]`.
pub fn generate_population_baseline<'a>(
    dict: &Vec<Word>,
    size: usize,
    c: &'a mut City,
    age_deviations: &Vec<u32>,
) -> (r: &'a mut City)
    requires
        chars_ready(word_views(dict@), old(c).culture.era, true),
        age_deviations.len() == size,
        forall|j: int| 0 <= j < size ==> #[trigger] age_deviations@[j] <= u32::MAX - 55,
    ensures
        r.citizens.len() == size,
        forall|j: int|
            0 <= j < size ==> char_made(
                #[trigger] r.citizens@[j],
                word_views(dict@),
                old(c).culture.era,
                true,
                age_deviations@[j],
            ),
        r.name == old(c).name,
        r.institutions == old(c).institutions,
        r.areas == old(c).areas,
        r.buildings == old(c).buildings,
        r.culture == old(c).culture,
        r.year == old(c).year,
        *final(c) == *final(r),
{
    let mut citizens: Population = Vec::new();
    let mut i: usize = 0;
    while i < size
        invariant
            i <= size == age_deviations.len(),
            citizens.len() == i,
            chars_ready(word_views(dict@), c.culture.era, true),
            forall|j: int| 0 <= j < size ==> #[trigger] age_deviations@[j] <= u32::MAX - 55,
            forall|j: int|
                0 <= j < i ==> char_made(
                    #[trigger] citizens@[j],
                    word_views(dict@),
                    c.culture.era,
                    true,
                    age_deviations@[j],
                ),
        decreases size - i,
    {
        let m = random_char(dict, &c.culture.era, true, age_deviations[i]);
        let ghost prev = citizens@;
        citizens.push(m);
        proof {
            assert forall|j: int|
                0 <= j < i + 1 implies char_made(
                    #[trigger] citizens@[j],
                    word_views(dict@),
                    c.culture.era,
                    true,
                    age_deviations@[j],
                ) by {
                if j < i {
                    assert(citizens@[j] == prev[j]);
                }
            }
        }
        i = i + 1;
    }
    c.citizens = citizens;
    c
}

} // verus!
