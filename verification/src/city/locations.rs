//! Areas of a city, each with room for a number of buildings.
use crate::city::building::{building_text, print_building, Building};
use crate::city::City;
use crate::language::{word_views, Era, Word};
use crate::random::{new_id, random_below, Id};
use crate::templater::{render_one_of, renders};
use crate::text::{chars_of, push_all, push_str, string_of};
use vstd::prelude::*;

verus! {

/// An area of the city.
pub struct Location {
    pub id: Id,
    pub name: String,
    pub size: usize,
}

} // verus!

verus! {

/// The listings of the buildings that stand at location `id`, in order.
pub open spec fn buildings_at(bs: Seq<Building>, id: Id, city: City) -> Seq<char>
    decreases bs.len(),
{
    if bs.len() == 0 {
        Seq::empty()
    } else {
        let rest = buildings_at(bs.drop_last(), id, city);
        if bs.last().location_id == Some(id) {
            rest + building_text(bs.last(), city)
        } else {
            rest
        }
    }
}

/// The listing of a location: its name, then the buildings that stand
/// there (see [`building_text`]).
pub open spec fn location_text(location: Location, city: City) -> Seq<char> {
    "==Location=\n"@ + "Name: "@ + location.name@ + "\n"@ + "Buildings: \n"@ + buildings_at(
        city.buildings@,
        location.id,
        city,
    ) + "===========\n"@
}

/// The listing of a location (see [`location_text`]).
pub fn print_location(location: &Location, city: &City) -> (r: String)
    ensures
        r@ == location_text(*location, *city),
{
    let mut out: Vec<char> = Vec::new();
    push_str(&mut out, "==Location=\n");
    push_str(&mut out, "Name: ");
    push_str(&mut out, location.name.as_str());
    push_str(&mut out, "\n");
    push_str(&mut out, "Buildings: \n");
    let ghost head = out@;
    let mut i: usize = 0;
    while i < city.buildings.len()
        invariant
            i <= city.buildings.len(),
            head == "==Location=\n"@ + "Name: "@ + location.name@ + "\n"@ + "Buildings: \n"@,
            out@ == head + buildings_at(city.buildings@.take(i as int), location.id, *city),
        decreases city.buildings.len() - i,
    {
        assert(city.buildings@.take(i + 1).drop_last() =~= city.buildings@.take(i as int));
        let b = &city.buildings[i];
        if b.location_id == Some(location.id) {
            let text = print_building(b, city);
            let t = chars_of(text.as_str());
            push_all(&mut out, &t);
        }
        i = i + 1;
        assert(out@ =~= head + buildings_at(city.buildings@.take(i as int), location.id, *city));
    }
    assert(city.buildings@.take(city.buildings.len() as int) =~= city.buildings@);
    push_str(&mut out, "===========\n");
    assert(out@ =~= location_text(*location, *city));
    string_of(&out)
}

/// The templates of long location names.
pub open spec fn long_location_templates() -> Seq<Seq<char>> {
    seq![
        "{{{{Adjective(Position, Quality, Age, Colour)}} {{Noun(!LastName, !HistoricalFigure))}} {{Noun(GeographyFeatureSizeAreaFeature)}} {{Noun(GeographyFeatureSizeLocalFeature)}}"@,
        "{{Noun(HistoricalFigure)}} {{Noun(GeographyFeatureSizeAreaFeature)}} {{Noun(GeographyFeatureSizeLocalFeature)}}"@,
        "{{{{Adjective(Position, Quality, Age, Colour)}} {{Noun(!LastName, !HistoricalFigure)}} {{Noun(GeographyFeatureSizeLocalFeature)}}"@,
        "{{{{Adjective(Position, Quality, Age, Colour)}} {{Noun(!LastName, !HistoricalFigure)}} {{Noun(GeographyFeatureSizeAreaFeature)}}"@,
    ]
}

/// The templates of short location names.
pub open spec fn short_location_templates() -> Seq<Seq<char>> {
    seq![
        "{{{{Adjective(Position, Quality, Age, Colour)}} {{Noun(!LastName, !HistoricalFigure)}}"@,
        "{{Noun(HistoricalFigure)}} {{Noun(GeographyFeatureSizeLocalFeature)}}"@,
        "{{{{Adjective(Position, Quality, Age, Colour)}} {{Noun(GeographyFeatureSizeLocalFeature)}}"@,
    ]
}

/// The templates of location names, long or short.
pub open spec fn location_templates(long: bool) -> Seq<Seq<char>> {
    if long {
        long_location_templates()
    } else {
        short_location_templates()
    }
}

/// A location name: one of the long or short templates, drawn at random,
/// filled from the dictionary (see [`renders`]).
pub fn gen_location_name(dict: &Vec<Word>, long: bool, era: &Option<Era>) -> (r: String)
    ensures
        exists|i: int|
            0 <= i < location_templates(long).len() && renders(
                word_views(dict@),
                *era,
                #[trigger] location_templates(long)[i],
                r@,
            ),
{
    if long {
        let templates = vec![
            "{{{{Adjective(Position, Quality, Age, Colour)}} {{Noun(!LastName, !HistoricalFigure))}} {{Noun(GeographyFeatureSizeAreaFeature)}} {{Noun(GeographyFeatureSizeLocalFeature)}}",
            "{{Noun(HistoricalFigure)}} {{Noun(GeographyFeatureSizeAreaFeature)}} {{Noun(GeographyFeatureSizeLocalFeature)}}",
            "{{{{Adjective(Position, Quality, Age, Colour)}} {{Noun(!LastName, !HistoricalFigure)}} {{Noun(GeographyFeatureSizeLocalFeature)}}",
            "{{{{Adjective(Position, Quality, Age, Colour)}} {{Noun(!LastName, !HistoricalFigure)}} {{Noun(GeographyFeatureSizeAreaFeature)}}",
        ];
        let r = render_one_of(&templates, dict, era);
        proof {
            let i = choose|i: int|
                0 <= i < templates.len() && renders(
                    word_views(dict@),
                    *era,
                    (#[trigger] templates@[i])@,
                    r@,
                );
            assert(templates@[i]@ == long_location_templates()[i]);
            assert(renders(word_views(dict@), *era, location_templates(long)[i], r@));
        }
        r
    } else {
        let templates = vec![
            "{{{{Adjective(Position, Quality, Age, Colour)}} {{Noun(!LastName, !HistoricalFigure)}}",
            "{{Noun(HistoricalFigure)}} {{Noun(GeographyFeatureSizeLocalFeature)}}",
            "{{{{Adjective(Position, Quality, Age, Colour)}} {{Noun(GeographyFeatureSizeLocalFeature)}}",
        ];
        let r = render_one_of(&templates, dict, era);
        proof {
            let i = choose|i: int|
                0 <= i < templates.len() && renders(
                    word_views(dict@),
                    *era,
                    (#[trigger] templates@[i])@,
                    r@,
                );
            assert(templates@[i]@ == short_location_templates()[i]);
            assert(renders(word_views(dict@), *era, location_templates(long)[i], r@));
        }
        r
    }
}

/// A new location: a fresh id, a short name (see [`gen_location_name`]),
/// and room for 1 to 9 buildings, drawn at random.
pub fn gen_location(dict: &Vec<Word>, era: &Option<Era>) -> (r: Location)
    ensures
        1 <= r.size <= 9,
        exists|i: int|
            0 <= i < short_location_templates().len() && renders(
                word_views(dict@),
                *era,
                #[trigger] short_location_templates()[i],
                r.name@,
            ),
{
    let roll = random_below(10);
    let size = if roll < 1 {
        1
    } else {
        roll
    };
    Location { id: new_id(), name: gen_location_name(dict, false, era), size }
}

} // verus!

verus! {

/// The index of the first location with id `id`.
pub open spec fn find_location(locs: Seq<Location>, id: Id) -> Option<int>
    decreases locs.len(),
{
    if locs.len() == 0 {
        None
    } else {
        match find_location(locs.drop_last(), id) {
            Some(i) => Some(i),
            None => if locs.last().id == id {
                Some(locs.len() - 1)
            } else {
                None
            },
        }
    }
}

pub(crate) fn find_location_exec(locs: &Vec<Location>, id: Id) -> (r: Option<usize>)
    ensures
        r matches Some(i) ==> find_location(locs@, id) == Some(i as int) && i < locs.len(),
        r is None ==> find_location(locs@, id) is None,
{
    let mut i: usize = 0;
    while i < locs.len()
        invariant
            i <= locs.len(),
            find_location(locs@.take(i as int), id) is None,
        decreases locs.len() - i,
    {
        assert(locs@.take(i + 1).drop_last() =~= locs@.take(i as int));
        if locs[i].id == id {
            proof {
                lemma_find_location_prefix(locs@, i as int + 1, id);
            }
            return Some(i);
        }
        i = i + 1;
    }
    assert(locs@.take(locs.len() as int) =~= locs@);
    None
}

proof fn lemma_find_location_prefix(locs: Seq<Location>, n: int, id: Id)
    requires
        0 <= n <= locs.len(),
        find_location(locs.take(n), id) is Some,
    ensures
        find_location(locs, id) == find_location(locs.take(n), id),
    decreases locs.len() - n,
{
    if n < locs.len() {
        assert(locs.take(n + 1).drop_last() =~= locs.take(n));
        lemma_find_location_prefix(locs, n + 1, id);
    } else {
        assert(locs.take(n) =~= locs);
    }
}

} // verus!
