//! Buildings: floors of apartments and commercial units.
use crate::city::institutions::Institution;
use crate::city::population::mind::Mind;
use crate::city::City;
use crate::culture::CultureConfig;
use crate::language::{word_views, Word, WordView};
use crate::city::locations::{gen_location, short_location_templates, Location};
use crate::city::population::mind::relations::same_but_citizens;
use crate::templater::{render_one_of, renders};
use crate::random::{lemma_ratio_drawn, new_id, random_below, random_ratio, ratio_drawn, Id};
use crate::text::{decimal, decimal_chars, push_all, push_str, string_of};
use vstd::prelude::*;

verus! {

/// What an area of a floor is used for.
#[derive(PartialEq, Eq, Structural, Debug, Clone, Copy)]
pub enum FloorAreaType {
    Apartment,
    Commercial,
    Utilities,
    Facilities,
    Security,
    Lobby,
}

impl FloorAreaType {
    /// The name of the value, as data files and templates spell it.
    pub open spec fn label(self) -> Seq<char> {
        match self {
            FloorAreaType::Apartment => "Apartment"@,
            FloorAreaType::Commercial => "Commercial"@,
            FloorAreaType::Utilities => "Utilities"@,
            FloorAreaType::Facilities => "Facilities"@,
            FloorAreaType::Security => "Security"@,
            FloorAreaType::Lobby => "Lobby"@,
        }
    }

    /// The name of the value, as data files and templates spell it.
    pub fn to_string(&self) -> (s: String)
        ensures
            s@ == self.label(),
    {
        match self {
            FloorAreaType::Apartment => String::from_str("Apartment"),
            FloorAreaType::Commercial => String::from_str("Commercial"),
            FloorAreaType::Utilities => String::from_str("Utilities"),
            FloorAreaType::Facilities => String::from_str("Facilities"),
            FloorAreaType::Security => String::from_str("Security"),
            FloorAreaType::Lobby => String::from_str("Lobby"),
        }
    }

    /// Every value, in declaration order.
    pub open spec fn all() -> Seq<FloorAreaType> {
        seq![FloorAreaType::Apartment, FloorAreaType::Commercial, FloorAreaType::Utilities, FloorAreaType::Facilities, FloorAreaType::Security, FloorAreaType::Lobby]
    }

    /// The names of all values, in declaration order.
    pub open spec fn labels() -> Seq<Seq<char>> {
        Self::all().map_values(|t: FloorAreaType| t.label())
    }

    /// Every value, in declaration order.
    pub fn iter() -> (v: Vec<FloorAreaType>)
        ensures
            v@ == Self::all(),
    {
        let v = vec![FloorAreaType::Apartment, FloorAreaType::Commercial, FloorAreaType::Utilities, FloorAreaType::Facilities, FloorAreaType::Security, FloorAreaType::Lobby];
        assert(v@ =~= Self::all());
        v
    }
}

/// What a floor is used for.
#[derive(PartialEq, Eq, Structural, Debug, Clone, Copy)]
pub enum FloorType {
    Residential,
    Commercial,
}

impl FloorType {
    /// The name of the value, as data files and templates spell it.
    pub open spec fn label(self) -> Seq<char> {
        match self {
            FloorType::Residential => "Residential"@,
            FloorType::Commercial => "Commercial"@,
        }
    }

    /// The name of the value, as data files and templates spell it.
    pub fn to_string(&self) -> (s: String)
        ensures
            s@ == self.label(),
    {
        match self {
            FloorType::Residential => String::from_str("Residential"),
            FloorType::Commercial => String::from_str("Commercial"),
        }
    }

    /// Every value, in declaration order.
    pub open spec fn all() -> Seq<FloorType> {
        seq![FloorType::Residential, FloorType::Commercial]
    }

    /// The names of all values, in declaration order.
    pub open spec fn labels() -> Seq<Seq<char>> {
        Self::all().map_values(|t: FloorType| t.label())
    }

    /// Every value, in declaration order.
    pub fn iter() -> (v: Vec<FloorType>)
        ensures
            v@ == Self::all(),
    {
        let v = vec![FloorType::Residential, FloorType::Commercial];
        assert(v@ =~= Self::all());
        v
    }
}


/// A unit of a floor: an apartment, a shop, a lobby, and so on.
pub struct BuildingFloorArea {
    pub id: Id,
    pub name: String,
    pub area_type: FloorAreaType,
    pub owning_institution: Option<Id>,
}

/// A floor of a building; level -1 is the basement and 0 the ground floor.
pub struct BuildingFloor {
    pub id: Id,
    pub level: i32,
    pub floor_type: FloorType,
    pub areas: Vec<BuildingFloorArea>,
}

/// A building, standing in an area of the city.
pub struct Building {
    pub id: Id,
    pub name: String,
    pub floors: Vec<BuildingFloor>,
    pub location_id: Option<Id>,
}

} // verus!

verus! {

/// What the city's bookkeeping reads of an area: its id, name and owning
/// institution, with the name and location of its building.
pub struct AreaInfo {
    pub id: Id,
    pub name: Seq<char>,
    pub owner: Option<Id>,
    pub building: Seq<char>,
    pub location: Option<Id>,
}

/// Area `a` of building `b`, as the bookkeeping reads it.
pub open spec fn area_info(b: Building, a: BuildingFloorArea) -> AreaInfo {
    AreaInfo {
        id: a.id,
        name: a.name@,
        owner: a.owning_institution,
        building: b.name@,
        location: b.location_id,
    }
}

/// The areas of the floors `floors` of building `b`, floor by floor.
pub open spec fn floor_infos(b: Building, floors: Seq<BuildingFloor>) -> Seq<AreaInfo>
    decreases floors.len(),
{
    if floors.len() == 0 {
        Seq::empty()
    } else {
        floor_infos(b, floors.drop_last()) + floors.last().areas@.map_values(
            |a: BuildingFloorArea| area_info(b, a),
        )
    }
}

/// Every area of the buildings `bs`, building by building and floor by
/// floor.
pub open spec fn area_infos(bs: Seq<Building>) -> Seq<AreaInfo>
    decreases bs.len(),
{
    if bs.len() == 0 {
        Seq::empty()
    } else {
        area_infos(bs.drop_last()) + floor_infos(bs.last(), bs.last().floors@)
    }
}

/// An area, with the name and location of its building.
pub struct AreaRef {
    pub id: Id,
    pub name: String,
    pub owner: Option<Id>,
    pub building: String,
    pub location: Option<Id>,
}

impl View for AreaRef {
    type V = AreaInfo;

    open spec fn view(&self) -> AreaInfo {
        AreaInfo {
            id: self.id,
            name: self.name@,
            owner: self.owner,
            building: self.building@,
            location: self.location,
        }
    }
}

/// The views of a list of areas.
pub open spec fn area_views(v: Seq<AreaRef>) -> Seq<AreaInfo> {
    v.map_values(|a: AreaRef| a@)
}

/// Every area of the buildings, building by building and floor by floor
/// (see [`area_infos`]).
pub fn collect_areas(buildings: &Vec<Building>) -> (r: Vec<AreaRef>)
    ensures
        area_views(r@) == area_infos(buildings@),
{
    let mut out: Vec<AreaRef> = Vec::new();
    let mut i: usize = 0;
    while i < buildings.len()
        invariant
            i <= buildings.len(),
            area_views(out@) == area_infos(buildings@.take(i as int)),
        decreases buildings.len() - i,
    {
        let b = &buildings[i];
        let ghost base = area_views(out@);
        let mut f: usize = 0;
        while f < b.floors.len()
            invariant
                f <= b.floors.len(),
                i < buildings.len(),
                b == &buildings@[i as int],
                area_views(out@) == base + floor_infos(*b, b.floors@.take(f as int)),
            decreases b.floors.len() - f,
        {
            let floor = &b.floors[f];
            let ghost mid = area_views(out@);
            let mut a: usize = 0;
            while a < floor.areas.len()
                invariant
                    a <= floor.areas.len(),
                    f < b.floors.len(),
                    floor == &b.floors@[f as int],
                    area_views(out@) == mid + floor.areas@.take(a as int).map_values(
                        |x: BuildingFloorArea| area_info(*b, x),
                    ),
                decreases floor.areas.len() - a,
            {
                let area = &floor.areas[a];
                let r = AreaRef {
                    id: area.id,
                    name: area.name.clone(),
                    owner: area.owning_institution,
                    building: b.name.clone(),
                    location: b.location_id,
                };
                let ghost prev = area_views(out@);
                out.push(r);
                a = a + 1;
                proof {
                    assert(area_views(out@) =~= prev.push(area_info(*b, *area)));
                    assert(floor.areas@.take(a as int).map_values(
                        |x: BuildingFloorArea| area_info(*b, x),
                    ) =~= floor.areas@.take(a - 1).map_values(
                        |x: BuildingFloorArea| area_info(*b, x),
                    ).push(area_info(*b, *area)));
                    assert(area_views(out@) =~= mid + floor.areas@.take(a as int).map_values(
                        |x: BuildingFloorArea| area_info(*b, x),
                    ));
                }
            }
            proof {
                assert(floor.areas@.take(floor.areas.len() as int) =~= floor.areas@);
                assert(b.floors@.take(f + 1).drop_last() =~= b.floors@.take(f as int));
                assert(b.floors@.take(f + 1).last() == *floor);
                assert(area_views(out@) =~= base + floor_infos(*b, b.floors@.take(f + 1)));
            }
            f = f + 1;
        }
        proof {
            assert(b.floors@.take(b.floors.len() as int) =~= b.floors@);
            assert(buildings@.take(i + 1).drop_last() =~= buildings@.take(i as int));
            assert(buildings@.take(i + 1).last() == *b);
        }
        i = i + 1;
    }
    assert(buildings@.take(buildings.len() as int) =~= buildings@);
    out
}

} // verus!

verus! {

/// The name of a floor: `Floor` and its number above the ground, the
/// basement at level -1, else the ground floor.
pub open spec fn level_name(level: i32) -> Seq<char> {
    if level > 0 {
        "Floor "@ + decimal(level as nat)
    } else if level == -1 {
        "Basement"@
    } else {
        "Ground Floor"@
    }
}

/// The heading of a floor in a building's listing.
pub open spec fn level_line(level: i32) -> Seq<char> {
    "      "@ + level_name(level) + "\n"@
}

/// The name of a floor (see [`level_name`]).
pub fn floor_title(level: i32) -> (s: String)
    ensures
        s@ == level_name(level),
{
    let mut out: Vec<char> = Vec::new();
    if level > 0 {
        push_str(&mut out, "Floor ");
        let d = decimal_chars(level as u64);
        push_all(&mut out, &d);
    } else if level == -1 {
        push_str(&mut out, "Basement");
    } else {
        push_str(&mut out, "Ground Floor");
    }
    string_of(&out)
}

/// The index of the first institution with id `owner`, when there is an
/// owner.
pub open spec fn owner_of(insts: Seq<Institution>, owner: Option<Id>) -> Option<int>
    decreases insts.len(),
{
    if owner is None || insts.len() == 0 {
        None
    } else {
        match owner_of(insts.drop_last(), owner) {
            Some(i) => Some(i),
            None => if insts.last().id == owner.unwrap() {
                Some(insts.len() - 1)
            } else {
                None
            },
        }
    }
}

/// The names, `<first> <last>`, of the citizens who live in area `area`, in
/// order.
pub open spec fn resident_names(pop: Seq<Mind>, area: Id) -> Seq<Seq<char>>
    decreases pop.len(),
{
    if pop.len() == 0 {
        Seq::empty()
    } else {
        let rest = resident_names(pop.drop_last(), area);
        let m = pop.last();
        if m.residence == Some(area) {
            rest.push(m.first_name@ + " "@ + m.last_name@)
        } else {
            rest
        }
    }
}

/// The texts `names` joined, with `sep` between each two.
pub open spec fn joined(names: Seq<Seq<char>>, sep: Seq<char>) -> Seq<char>
    decreases names.len(),
{
    if names.len() == 0 {
        Seq::empty()
    } else if names.len() == 1 {
        names[0]
    } else {
        joined(names.drop_last(), sep) + sep + names.last()
    }
}

/// The line of an area in a building's listing: its name, then the
/// institution that owns it, or the people who live there, or `Empty`.
pub open spec fn area_line(a: BuildingFloorArea, city: City) -> Seq<char> {
    "          "@ + a.name@ + ": "@ + (match owner_of(city.institutions@, a.owning_institution) {
        Some(i) => city.institutions@[i].name@,
        None => {
            let ns = resident_names(city.citizens@, a.id);
            if ns.len() == 0 {
                "Empty"@
            } else {
                joined(ns, ", "@)
            }
        },
    }) + "\n"@
}

/// The lines of the areas, in order.
pub open spec fn area_lines(areas: Seq<BuildingFloorArea>, city: City) -> Seq<char>
    decreases areas.len(),
{
    if areas.len() == 0 {
        Seq::empty()
    } else {
        area_lines(areas.drop_last(), city) + area_line(areas.last(), city)
    }
}

/// The listing of the floors, in order: each heading, then its areas.
pub open spec fn floor_lines(floors: Seq<BuildingFloor>, city: City) -> Seq<char>
    decreases floors.len(),
{
    if floors.len() == 0 {
        Seq::empty()
    } else {
        floor_lines(floors.drop_last(), city) + level_line(floors.last().level) + area_lines(
            floors.last().areas@,
            city,
        )
    }
}

/// The listing of a building: its name, then its floors.
pub open spec fn building_text(b: Building, city: City) -> Seq<char> {
    "  "@ + b.name@ + ":\n"@ + floor_lines(b.floors@, city)
}

pub(crate) fn owner_of_exec(insts: &Vec<Institution>, owner: Option<Id>) -> (r: Option<usize>)
    ensures
        r matches Some(i) ==> owner_of(insts@, owner) == Some(i as int) && i < insts.len(),
        r is None ==> owner_of(insts@, owner) is None,
{
    let o = match owner {
        Some(o) => o,
        None => {
            return None;
        },
    };
    let mut i: usize = 0;
    while i < insts.len()
        invariant
            i <= insts.len(),
            owner == Some(o),
            owner_of(insts@.take(i as int), owner) is None,
        decreases insts.len() - i,
    {
        assert(insts@.take(i + 1).drop_last() =~= insts@.take(i as int));
        if insts[i].id == o {
            proof {
                lemma_owner_of_prefix(insts@, i + 1, owner);
            }
            return Some(i);
        }
        i = i + 1;
    }
    assert(insts@.take(insts.len() as int) =~= insts@);
    None
}

proof fn lemma_owner_of_prefix(insts: Seq<Institution>, n: int, owner: Option<Id>)
    requires
        0 <= n <= insts.len(),
        owner_of(insts.take(n), owner) is Some,
    ensures
        owner_of(insts, owner) == owner_of(insts.take(n), owner),
    decreases insts.len() - n,
{
    if n < insts.len() {
        assert(insts.take(n + 1).drop_last() =~= insts.take(n));
        lemma_owner_of_prefix(insts, n + 1, owner);
    } else {
        assert(insts.take(n) =~= insts);
    }
}

fn push_residents(out: &mut Vec<char>, pop: &Vec<Mind>, area: Id)
    ensures
        final(out)@ == old(out)@ + (if resident_names(pop@, area).len() == 0 {
            "Empty"@
        } else {
            joined(resident_names(pop@, area), ", "@)
        }),
{
    let ghost o = out@;
    let mut names: Vec<char> = Vec::new();
    let mut count: usize = 0;
    let mut j: usize = 0;
    while j < pop.len()
        invariant
            j <= pop.len(),
            count <= j,
            count == resident_names(pop@.take(j as int), area).len(),
            names@ == joined(resident_names(pop@.take(j as int), area), ", "@),
        decreases pop.len() - j,
    {
        assert(pop@.take(j + 1).drop_last() =~= pop@.take(j as int));
        let m = &pop[j];
        if m.residence == Some(area) {
            if count > 0 {
                push_str(&mut names, ", ");
            }
            push_str(&mut names, m.first_name.as_str());
            push_str(&mut names, " ");
            push_str(&mut names, m.last_name.as_str());
            let ghost ns = resident_names(pop@.take(j + 1), area);
            assert(ns.drop_last() == resident_names(pop@.take(j as int), area));
            proof {
                if count == 0 {
                    assert(ns.len() == 1);
                    assert(names@ =~= ns[0]);
                } else {
                    assert(names@ =~= joined(ns, ", "@));
                }
            }
            count = count + 1;
        }
        j = j + 1;
    }
    assert(pop@.take(pop.len() as int) =~= pop@);
    if count == 0 {
        push_str(out, "Empty");
    } else {
        push_all(out, &names);
    }
}

/// The listing of a building (see [`building_text`]): each floor with its
/// areas, and who owns or lives in each.
pub fn print_building(building: &Building, city: &City) -> (r: String)
    ensures
        r@ == building_text(*building, *city),
{
    let mut out: Vec<char> = Vec::new();
    push_str(&mut out, "  ");
    push_str(&mut out, building.name.as_str());
    push_str(&mut out, ":\n");
    let ghost head = out@;
    let mut f: usize = 0;
    while f < building.floors.len()
        invariant
            f <= building.floors.len(),
            head == "  "@ + building.name@ + ":\n"@,
            out@ == head + floor_lines(building.floors@.take(f as int), *city),
        decreases building.floors.len() - f,
    {
        assert(building.floors@.take(f + 1).drop_last() =~= building.floors@.take(f as int));
        let floor = &building.floors[f];
        let ghost before = out@;
        push_str(&mut out, "      ");
        let title = floor_title(floor.level);
        push_str(&mut out, title.as_str());
        push_str(&mut out, "\n");
        assert(out@ =~= before + level_line(floor.level));
        let ghost mid = out@;
        let mut a: usize = 0;
        while a < floor.areas.len()
            invariant
                a <= floor.areas.len(),
                f < building.floors.len(),
                floor == &building.floors@[f as int],
                out@ == mid + area_lines(floor.areas@.take(a as int), *city),
            decreases floor.areas.len() - a,
        {
            assert(floor.areas@.take(a + 1).drop_last() =~= floor.areas@.take(a as int));
            let area = &floor.areas[a];
            let ghost b0 = out@;
            push_str(&mut out, "          ");
            push_str(&mut out, area.name.as_str());
            push_str(&mut out, ": ");
            match owner_of_exec(&city.institutions, area.owning_institution) {
                Some(i) => {
                    push_str(&mut out, city.institutions[i].name.as_str());
                },
                None => {
                    push_residents(&mut out, &city.citizens, area.id);
                },
            }
            push_str(&mut out, "\n");
            assert(out@ =~= b0 + area_line(*area, *city));
            a = a + 1;
            assert(out@ =~= mid + area_lines(floor.areas@.take(a as int), *city));
        }
        assert(floor.areas@.take(floor.areas.len() as int) =~= floor.areas@);
        f = f + 1;
        assert(out@ =~= head + floor_lines(building.floors@.take(f as int), *city));
    }
    assert(building.floors@.take(building.floors.len() as int) =~= building.floors@);
    string_of(&out)
}

} // verus!

verus! {

/// `n` in decimal, with a minus sign when negative.
pub open spec fn signed_decimal(n: int) -> Seq<char> {
    if n < 0 {
        "-"@ + decimal((-n) as nat)
    } else {
        decimal(n as nat)
    }
}

/// `n` in decimal, padded with a leading zero to two digits.
pub open spec fn padded2(n: nat) -> Seq<char> {
    if n < 10 {
        "0"@ + decimal(n)
    } else {
        decimal(n)
    }
}

/// The name of area `i` of a floor at `level`: the level, then `i + 1` in
/// two digits.
pub open spec fn area_name(level: i32, i: int) -> Seq<char> {
    signed_decimal(level as int) + padded2((i + 1) as nat)
}

/// What area `i` of a floor is used for: the first area of the ground floor
/// is the lobby and that of the basement the utilities; the others are
/// apartments on a residential floor and commercial units on a commercial
/// one.
pub open spec fn area_type_for(level: i32, floor_type: FloorType, i: int) -> FloorAreaType {
    if level == 0 && i == 0 {
        FloorAreaType::Lobby
    } else if level == -1 && i == 0 {
        FloorAreaType::Utilities
    } else if floor_type == FloorType::Residential {
        FloorAreaType::Apartment
    } else {
        FloorAreaType::Commercial
    }
}

/// Half of `n`, rounded toward zero.
pub open spec fn half_toward_zero(n: int) -> int {
    if n >= 0 {
        n / 2
    } else {
        -((-n) / 2)
    }
}

/// The last area index a floor may get with a footprint setting of `avg`:
/// half the setting, `h`, plus a draw from `0` up to `h` (toward zero).
pub open spec fn area_count_ok(avg: i32, count: int) -> bool {
    let h = half_toward_zero(avg as int);
    if h > 0 {
        h <= count < 2 * h
    } else if h == 0 {
        count == 0
    } else {
        2 * h < count <= h
    }
}

/// A new floor at `level` as the footprint setting `avg` shapes it: areas
/// `0 ..= count` for a count that [`area_count_ok`] allows (none when it is
/// negative), each named and typed by its place, none owned.
pub open spec fn floor_ok(f: BuildingFloor, level: i32, floor_type: FloorType, avg: i32) -> bool {
    &&& f.level == level
    &&& f.floor_type == floor_type
    &&& exists|count: int|
        area_count_ok(avg, count) && f.areas.len() == (if count >= 0 {
            count + 1
        } else {
            0
        })
    &&& forall|i: int|
        0 <= i < f.areas.len() ==> {
            &&& (#[trigger] f.areas@[i]).name@ == area_name(level, i)
            &&& f.areas@[i].area_type == area_type_for(level, floor_type, i)
            &&& f.areas@[i].owning_institution is None
        }
}

fn signed_decimal_exec(n: i32) -> (r: Vec<char>)
    ensures
        r@ == signed_decimal(n as int),
{
    if n < 0 {
        let mut out: Vec<char> = Vec::new();
        push_str(&mut out, "-");
        let m: i64 = -(n as i64);
        let d = decimal_chars(m as u64);
        push_all(&mut out, &d);
        out
    } else {
        decimal_chars(n as u64)
    }
}

fn area_name_exec(level: i32, i: u64) -> (r: String)
    requires
        i < u64::MAX,
    ensures
        r@ == area_name(level, i as int),
{
    let mut out = signed_decimal_exec(level);
    let n = i + 1;
    if n < 10 {
        push_str(&mut out, "0");
    }
    let d = decimal_chars(n);
    push_all(&mut out, &d);
    string_of(&out)
}

fn area_type_exec(level: i32, floor_type: FloorType, i: u64) -> (r: FloorAreaType)
    ensures
        r == area_type_for(level, floor_type, i as int),
{
    if level == 0 && i == 0 {
        FloorAreaType::Lobby
    } else if level == -1 && i == 0 {
        FloorAreaType::Utilities
    } else if floor_type == FloorType::Residential {
        FloorAreaType::Apartment
    } else {
        FloorAreaType::Commercial
    }
}

/// A new floor (see [`floor_ok`]): its number of areas drawn at random
/// around the culture's building footprint, each area with a fresh id.
fn new_floor(level: i32, floor_type: FloorType, culture: &CultureConfig) -> (r: BuildingFloor)
    ensures
        floor_ok(r, level, floor_type, culture.avg_building_footprint),
{
    let footprint: i32 = culture.avg_building_footprint / 2;
    assert(footprint == half_toward_zero(culture.avg_building_footprint as int));
    let area_count: i64 = if footprint > 0 {
        footprint as i64 + random_below(footprint as usize) as i64
    } else if footprint == 0 {
        0
    } else {
        let m: i64 = -(footprint as i64);
        footprint as i64 - random_below(m as usize) as i64
    };
    let mut areas: Vec<BuildingFloorArea> = Vec::new();
    if area_count >= 0 {
        let last: u64 = area_count as u64;
        let mut i: u64 = 0;
        while i <= last
            invariant
                last == area_count,
                area_count < 2147483648,
                i <= last + 1,
                areas.len() == i,
                forall|j: int|
                    0 <= j < i ==> {
                        &&& (#[trigger] areas@[j]).name@ == area_name(level, j)
                        &&& areas@[j].area_type == area_type_for(level, floor_type, j)
                        &&& areas@[j].owning_institution is None
                    },
            decreases last + 1 - i,
        {
            let area = BuildingFloorArea {
                id: new_id(),
                name: area_name_exec(level, i),
                area_type: area_type_exec(level, floor_type, i),
                owning_institution: None,
            };
            areas.push(area);
            i = i + 1;
        }
    }
    let r = BuildingFloor { id: new_id(), level, floor_type, areas };
    assert(area_count_ok(culture.avg_building_footprint, area_count as int));
    r
}

} // verus!

verus! {

/// The templates of building names.
pub open spec fn building_templates() -> Seq<Seq<char>> {
    seq![
        "{{{{Adjective(Position, Quality, Age, Colour)}} {{Noun(LastName)}} {{Noun(BuildingTitle)}}"@,
        "{{Noun(LastName)}} {{Noun(BuildingTitle)}}"@,
        "{{{{Adjective(Position, Quality, Age, Colour)}} {{Noun(BuildingTitle)}}"@,
    ]
}

/// The top floor a building may get with a floors setting of `avg`: a draw
/// from `0` up to `2 * avg + 1` (toward zero), but at least 2.
pub open spec fn floor_count_ok(avg: i32, count: int) -> bool {
    let m = 2 * avg + 1;
    &&& count >= 2
    &&& if m > 0 {
        count < m || count == 2
    } else {
        count == 2
    }
}

/// A new building's floors: from the basement (when it has one) or the
/// ground floor up to the top floor `top`; the floors below `commercial`
/// from the ground up are commercial and the rest residential; each floor
/// shaped by the footprint setting (see [`floor_ok`]).
pub open spec fn floors_ok(floors: Seq<BuildingFloor>, top: int, commercial: int, basement: bool, avg: i32) -> bool {
    let first: int = if basement {
        -1
    } else {
        0
    };
    &&& floors.len() == top - first + 1
    &&& forall|k: int|
        0 <= k < floors.len() ==> {
            let level = first + k;
            floor_ok(
                #[trigger] floors[k],
                level as i32,
                if 0 <= level < commercial {
                    FloorType::Commercial
                } else {
                    FloorType::Residential
                },
                avg,
            )
        }
}

/// A new building: a name from the building templates (see [`renders`]), a
/// top floor drawn by the culture's floors setting (see
/// [`floor_count_ok`]), a basement with chance 1 in 2, and, unless it is
/// residential, at least one commercial floor (up to about half of them);
/// its floors are new (see [`floors_ok`]).
pub fn new_building(
    dict: &Vec<Word>,
    location_id: Option<Id>,
    culture: &CultureConfig,
    residential: bool,
) -> (r: Building)
    requires
        -1073741824 <= culture.avg_building_floors < 1073741823,
    ensures
        r.location_id == location_id,
        exists|i: int|
            0 <= i < building_templates().len() && renders(
                word_views(dict@),
                culture.era,
                #[trigger] building_templates()[i],
                r.name@,
            ),
        exists|top: int, commercial: int, basement: bool|
            #![trigger floors_ok(r.floors@, top, commercial, basement, culture.avg_building_footprint)]
            floor_count_ok(culture.avg_building_floors, top) && ratio_drawn(1, 2, basement) && (residential
                ==> commercial == 0) && (!residential ==> 1 <= commercial <= top / 2) && floors_ok(
                r.floors@,
                top,
                commercial,
                basement,
                culture.avg_building_footprint,
            ),
{
    let templates = vec![
        "{{{{Adjective(Position, Quality, Age, Colour)}} {{Noun(LastName)}} {{Noun(BuildingTitle)}}",
        "{{Noun(LastName)}} {{Noun(BuildingTitle)}}",
        "{{{{Adjective(Position, Quality, Age, Colour)}} {{Noun(BuildingTitle)}}",
    ];
    let m: i32 = culture.avg_building_floors * 2 + 1;
    let drawn: i32 = if m > 0 {
        random_below(m as usize) as i32
    } else {
        0
    };
    let floor_count: i32 = if drawn < 2 {
        2
    } else {
        drawn
    };
    let commercial_floor_count: i32 = if residential {
        0
    } else {
        let c = (random_below(floor_count as usize) / 2) as i32;
        if c < 1 {
            1
        } else {
            c
        }
    };
    let has_basement = random_ratio(1, 2);
    proof {
        lemma_ratio_drawn(1, 2, has_basement);
    }
    let first: i32 = if has_basement {
        -1
    } else {
        0
    };
    let mut floors: Vec<BuildingFloor> = Vec::new();
    let mut i: i32 = first;
    while i <= floor_count
        invariant
            first <= i <= floor_count + 1,
            2 <= floor_count < 2147483647,
            floors.len() == i - first,
            forall|k: int|
                0 <= k < floors.len() ==> {
                    let level = first + k;
                    floor_ok(
                        #[trigger] floors@[k],
                        level as i32,
                        if 0 <= level < commercial_floor_count {
                            FloorType::Commercial
                        } else {
                            FloorType::Residential
                        },
                        culture.avg_building_footprint,
                    )
                },
        decreases floor_count + 1 - i,
    {
        let floor_type = if i < commercial_floor_count && i >= 0 {
            FloorType::Commercial
        } else {
            FloorType::Residential
        };
        let f = new_floor(i, floor_type, culture);
        floors.push(f);
        i = i + 1;
    }
    let name = render_one_of(&templates, dict, &culture.era);
    proof {
        let j = choose|j: int|
            0 <= j < templates.len() && renders(
                word_views(dict@),
                culture.era,
                (#[trigger] templates@[j])@,
                name@,
            );
        assert(templates@[j]@ == building_templates()[j]);
        assert(floors_ok(
            floors@,
            floor_count as int,
            commercial_floor_count as int,
            has_basement,
            culture.avg_building_footprint,
        ));
        assert(floor_count_ok(culture.avg_building_floors, floor_count as int));
        assert(residential ==> commercial_floor_count == 0);
        assert(!residential ==> 1 <= commercial_floor_count <= floor_count / 2);
    }
    let b = Building { id: new_id(), name, floors, location_id };
    assert(floors_ok(b.floors@, floor_count as int, commercial_floor_count as int, has_basement, culture.avg_building_footprint));
    b
}

/// A new building standing nowhere yet (see [`new_building`]).
pub fn new_building_no_loc(dict: &Vec<Word>, culture: &CultureConfig, residential: bool) -> (r: Building)
    requires
        -1073741824 <= culture.avg_building_floors < 1073741823,
    ensures
        r.location_id is None,
        exists|i: int|
            0 <= i < building_templates().len() && renders(
                word_views(dict@),
                culture.era,
                #[trigger] building_templates()[i],
                r.name@,
            ),
        exists|top: int, commercial: int, basement: bool|
            #![trigger floors_ok(r.floors@, top, commercial, basement, culture.avg_building_footprint)]
            floor_count_ok(culture.avg_building_floors, top) && (residential ==> commercial == 0)
                && (!residential ==> 1 <= commercial <= top / 2) && floors_ok(
                r.floors@,
                top,
                commercial,
                basement,
                culture.avg_building_footprint,
            ),
{
    new_building(dict, None, culture, residential)
}

} // verus!

verus! {

/// Whether some citizen lives in area `area`.
pub fn building_area_is_owned(area: &BuildingFloorArea, city: &City) -> (b: bool)
    ensures
        b == exists|j: int| 0 <= j < city.citizens.len() && (#[trigger] city.citizens@[j]).residence == Some(area.id),
{
    let mut j: usize = 0;
    while j < city.citizens.len()
        invariant
            j <= city.citizens.len(),
            forall|q: int| 0 <= q < j ==> (#[trigger] city.citizens@[q]).residence != Some(area.id),
        decreases city.citizens.len() - j,
    {
        if city.citizens[j].residence == Some(area.id) {
            return true;
        }
        j = j + 1;
    }
    false
}

/// The number of buildings standing at location `id`.
pub open spec fn buildings_count_at(bs: Seq<Building>, id: Id) -> nat
    decreases bs.len(),
{
    if bs.len() == 0 {
        0
    } else {
        buildings_count_at(bs.drop_last(), id) + if bs.last().location_id == Some(id) {
            1nat
        } else {
            0nat
        }
    }
}

/// The index of the first location with room for another building.
pub open spec fn first_free(locs: Seq<Location>, bs: Seq<Building>) -> Option<int>
    decreases locs.len(),
{
    if locs.len() == 0 {
        None
    } else {
        match first_free(locs.drop_last(), bs) {
            Some(i) => Some(i),
            None => if buildings_count_at(bs, locs.last().id) < locs.last().size {
                Some(locs.len() - 1)
            } else {
                None
            },
        }
    }
}

fn count_at(bs: &Vec<Building>, id: Id) -> (n: usize)
    ensures
        n == buildings_count_at(bs@, id),
{
    let mut n: usize = 0;
    let mut i: usize = 0;
    while i < bs.len()
        invariant
            i <= bs.len(),
            n == buildings_count_at(bs@.take(i as int), id),
            n <= i,
        decreases bs.len() - i,
    {
        assert(bs@.take(i + 1).drop_last() =~= bs@.take(i as int));
        if bs[i].location_id == Some(id) {
            n = n + 1;
        }
        i = i + 1;
    }
    assert(bs@.take(bs.len() as int) =~= bs@);
    n
}

proof fn lemma_first_free_prefix(locs: Seq<Location>, bs: Seq<Building>, n: int)
    requires
        0 <= n <= locs.len(),
        first_free(locs.take(n), bs) is Some,
    ensures
        first_free(locs, bs) == first_free(locs.take(n), bs),
    decreases locs.len() - n,
{
    if n < locs.len() {
        assert(locs.take(n + 1).drop_last() =~= locs.take(n));
        lemma_first_free_prefix(locs, bs, n + 1);
    } else {
        assert(locs.take(n) =~= locs);
    }
}

/// The first location with room for another building (see [`first_free`]).
fn find_free_area(city: &City) -> (r: Option<usize>)
    ensures
        r matches Some(i) ==> first_free(city.areas@, city.buildings@) == Some(i as int) && i
            < city.areas.len(),
        r is None ==> first_free(city.areas@, city.buildings@) is None,
{
    let mut i: usize = 0;
    while i < city.areas.len()
        invariant
            i <= city.areas.len(),
            first_free(city.areas@.take(i as int), city.buildings@) is None,
        decreases city.areas.len() - i,
    {
        assert(city.areas@.take(i + 1).drop_last() =~= city.areas@.take(i as int));
        if count_at(&city.buildings, city.areas[i].id) < city.areas[i].size {
            proof {
                lemma_first_free_prefix(city.areas@, city.buildings@, i + 1);
            }
            return Some(i);
        }
        i = i + 1;
    }
    assert(city.areas@.take(city.areas.len() as int) =~= city.areas@);
    None
}

/// A building as [`new_building`] makes one: a name from the building
/// templates and floors as the culture's settings shape them.
pub open spec fn building_made(b: Building, dict: Seq<WordView>, culture: CultureConfig, residential: bool) -> bool {
    &&& exists|i: int|
        0 <= i < building_templates().len() && renders(
            dict,
            culture.era,
            #[trigger] building_templates()[i],
            b.name@,
        )
    &&& exists|top: int, commercial: int, basement: bool|
        #![trigger floors_ok(b.floors@, top, commercial, basement, culture.avg_building_footprint)]
        floor_count_ok(culture.avg_building_floors, top) && (residential ==> commercial == 0) && (
        !residential ==> 1 <= commercial <= top / 2) && floors_ok(
            b.floors@,
            top,
            commercial,
            basement,
            culture.avg_building_footprint,
        )
}

/// A location as [`gen_location`] makes one.
pub open spec fn location_made(l: Location, dict: Seq<WordView>, culture: CultureConfig) -> bool {
    &&& 1 <= l.size <= 9
    &&& exists|i: int|
        0 <= i < short_location_templates().len() && renders(
            dict,
            culture.era,
            #[trigger] short_location_templates()[i],
            l.name@,
        )
}

/// Only the locations and buildings changed from `old` to `new`.
pub open spec fn same_but_estate(old: City, new: City) -> bool {
    &&& new.name == old.name
    &&& new.citizens == old.citizens
    &&& new.institutions == old.institutions
    &&& new.culture == old.culture
    &&& new.year == old.year
}

/// The locations `areas` and buildings `bs` are those of `old` with one
/// building more (see [`building_made`]), at the first location with room
/// for it (see [`first_free`]); when there is none, a new location (see
/// [`location_made`]) was added first, and the building stands at the first
/// location with room, or else at the new location.
pub open spec fn building_added(
    old: City,
    areas: Seq<Location>,
    bs: Seq<Building>,
    dict: Seq<WordView>,
    residential: bool,
) -> bool {
    &&& bs.len() == old.buildings@.len() + 1
    &&& bs.drop_last() == old.buildings@
    &&& building_made(bs.last(), dict, old.culture, residential)
    &&& match first_free(old.areas@, old.buildings@) {
        Some(a) => areas == old.areas@ && bs.last().location_id == Some(old.areas@[a].id),
        None => {
            &&& areas.len() == old.areas@.len() + 1
            &&& areas.drop_last() == old.areas@
            &&& location_made(areas.last(), dict, old.culture)
            &&& bs.last().location_id == Some(
                areas[match first_free(areas, old.buildings@) {
                    Some(j) => j,
                    None => areas.len() - 1,
                }].id,
            )
        },
    }
}

/// Adds a new building (see [`new_building`]) at the first location with
/// room for it (see [`first_free`]); when there is none, a new location
/// (see [`gen_location`]) is added first, and the building goes to the
/// first location with room, or else to the new location.
pub fn add_building_to_city<'a>(city: &'a mut City, dict: &Vec<Word>, residential: bool) -> (r: &'a mut City)
    requires
        -1073741824 <= old(city).culture.avg_building_floors < 1073741823,
    ensures
        same_but_estate(*old(city), *r),
        building_added(*old(city), r.areas@, r.buildings@, word_views(dict@), residential),
        *final(city) == *final(r),
{
    let free = match find_free_area(city) {
        Some(i) => i,
        None => {
            let loc = gen_location(dict, &city.culture.era);
            let ghost a0 = city.areas@;
            city.areas.push(loc);
            assert(city.areas@.drop_last() =~= a0);
            match find_free_area(city) {
                Some(j) => j,
                None => city.areas.len() - 1,
            }
        },
    };
    let location_id = city.areas[free].id;
    let b = new_building(dict, Some(location_id), &city.culture, residential);
    let ghost bs0 = city.buildings@;
    city.buildings.push(b);
    assert(city.buildings@.drop_last() =~= bs0);
    city
}

/// The number of areas on the residential floors of the buildings.
pub open spec fn residential_areas(bs: Seq<Building>) -> nat
    decreases bs.len(),
{
    if bs.len() == 0 {
        0
    } else {
        residential_areas(bs.drop_last()) + residential_floor_areas(bs.last().floors@)
    }
}

/// The number of areas on the residential floors among `floors`.
pub open spec fn residential_floor_areas(floors: Seq<BuildingFloor>) -> nat
    decreases floors.len(),
{
    if floors.len() == 0 {
        0
    } else {
        residential_floor_areas(floors.drop_last()) + if floors.last().floor_type
            == FloorType::Residential {
            floors.last().areas.len() as nat
        } else {
            0nat
        }
    }
}

/// The number of areas on the residential floors of the city's buildings
/// (see [`residential_areas`]), or the largest `usize` when it is larger.
fn count_available_apartments(city: &City) -> (n: usize)
    ensures
        n == (if residential_areas(city.buildings@) <= usize::MAX {
            residential_areas(city.buildings@)
        } else {
            usize::MAX as nat
        }),
{
    let mut total: u128 = 0;
    let mut i: usize = 0;
    while i < city.buildings.len()
        invariant
            i <= city.buildings.len(),
            total == (if residential_areas(city.buildings@.take(i as int)) <= usize::MAX {
                residential_areas(city.buildings@.take(i as int))
            } else {
                usize::MAX as nat + 1
            }),
        decreases city.buildings.len() - i,
    {
        assert(city.buildings@.take(i + 1).drop_last() =~= city.buildings@.take(i as int));
        let b = &city.buildings[i];
        let ghost base = residential_areas(city.buildings@.take(i as int));
        let mut f: usize = 0;
        while f < b.floors.len()
            invariant
                f <= b.floors.len(),
                i < city.buildings.len(),
                b == &city.buildings@[i as int],
                total == (if base + residential_floor_areas(b.floors@.take(f as int)) <= usize::MAX {
                    base + residential_floor_areas(b.floors@.take(f as int))
                } else {
                    usize::MAX as nat + 1
                }),
            decreases b.floors.len() - f,
        {
            assert(b.floors@.take(f + 1).drop_last() =~= b.floors@.take(f as int));
            if b.floors[f].floor_type == FloorType::Residential {
                let add = b.floors[f].areas.len() as u128;
                let sum = total + add;
                total = if sum > usize::MAX as u128 {
                    usize::MAX as u128 + 1
                } else {
                    sum
                };
            }
            f = f + 1;
        }
        assert(b.floors@.take(b.floors.len() as int) =~= b.floors@);
        i = i + 1;
    }
    assert(city.buildings@.take(city.buildings.len() as int) =~= city.buildings@);
    if total > usize::MAX as u128 {
        usize::MAX
    } else {
        total as usize
    }
}

} // verus!

verus! {

/// The number of alive citizens.
pub open spec fn alive_count(pop: Seq<Mind>) -> nat
    decreases pop.len(),
{
    if pop.len() == 0 {
        0
    } else {
        alive_count(pop.drop_last()) + if pop.last().alive {
            1nat
        } else {
            0nat
        }
    }
}

pub(crate) fn count_alive(pop: &Vec<Mind>) -> (n: usize)
    ensures
        n == alive_count(pop@),
{
    let mut n: usize = 0;
    let mut i: usize = 0;
    while i < pop.len()
        invariant
            i <= pop.len(),
            n <= i,
            n == alive_count(pop@.take(i as int)),
        decreases pop.len() - i,
    {
        assert(pop@.take(i + 1).drop_last() =~= pop@.take(i as int));
        if pop[i].alive {
            n = n + 1;
        }
        i = i + 1;
    }
    assert(pop@.take(pop.len() as int) =~= pop@);
    n
}

proof fn lemma_residential_floors(floors: Seq<BuildingFloor>)
    requires
        forall|k: int|
            0 <= k < floors.len() ==> (#[trigger] floors[k]).floor_type == FloorType::Residential
                && floors[k].areas.len() >= 1,
    ensures
        residential_floor_areas(floors) >= floors.len(),
    decreases floors.len(),
{
    if floors.len() > 0 {
        assert forall|k: int| 0 <= k < floors.drop_last().len() implies (#[trigger] floors.drop_last()[k]).floor_type
            == FloorType::Residential && floors.drop_last()[k].areas.len() >= 1 by {
            assert(floors.drop_last()[k] == floors[k]);
        }
        lemma_residential_floors(floors.drop_last());
        assert(floors.last() == floors[floors.len() - 1]);
    }
}

proof fn lemma_new_home_building(b: Building, dict: Seq<WordView>, culture: CultureConfig)
    requires
        building_made(b, dict, culture, true),
        culture.avg_building_footprint >= 0,
    ensures
        residential_floor_areas(b.floors@) >= 3,
{
    let (top, commercial, basement) = choose|top: int, commercial: int, basement: bool|
        #![trigger floors_ok(b.floors@, top, commercial, basement, culture.avg_building_footprint)]
        floor_count_ok(culture.avg_building_floors, top) && (true ==> commercial == 0) && (!true
            ==> 1 <= commercial <= top / 2) && floors_ok(
            b.floors@,
            top,
            commercial,
            basement,
            culture.avg_building_footprint,
        );
    assert forall|k: int| 0 <= k < b.floors@.len() implies (#[trigger] b.floors@[k]).floor_type
        == FloorType::Residential && b.floors@[k].areas.len() >= 1 by {
        let first: int = if basement {
            -1
        } else {
            0
        };
        let level = first + k;
        let f = b.floors@[k];
        assert(floor_ok(f, level as i32, FloorType::Residential, culture.avg_building_footprint));
        let count = choose|count: int|
            area_count_ok(culture.avg_building_footprint, count) && f.areas.len() == (if count >= 0 {
                count + 1
            } else {
                0
            });
    }
    lemma_residential_floors(b.floors@);
}

/// What the yearly building makes of the city `c0` (see
/// [`add_buildings_per_year`]): `c1`.
pub open spec fn buildings_added(c0: City, c1: City, dict: Seq<Word>) -> bool {
    &&& same_but_estate(c0, c1)
    &&& c1.buildings@.len() >= c0.buildings@.len()
    &&& c1.buildings@.take(c0.buildings@.len() as int) == c0.buildings@
    &&& c1.areas@.len() >= c0.areas@.len()
    &&& c1.areas@.take(c0.areas@.len() as int) == c0.areas@
    &&& forall|k: int|
        c0.buildings@.len() <= k < c1.buildings@.len() ==> building_made(
            #[trigger] c1.buildings@[k],
            word_views(dict),
            c0.culture,
            true,
        )
    &&& residential_areas(c1.buildings@) >= alive_count(c0.citizens@) - alive_count(c0.citizens@) / 100
    &&& c1.buildings@.len() > c0.buildings@.len() ==> residential_areas(c1.buildings@.drop_last()) < alive_count(
        c0.citizens@,
    ) - alive_count(c0.citizens@) / 100
}

/// Adds residential buildings (see [`add_building_to_city`]) until the
/// areas on residential floors number at least the alive citizens less one
/// in a hundred of them. The culture's footprint setting must not be
/// negative, so that each building adds areas.
pub fn add_buildings_per_year<'a>(city: &'a mut City, dict: &Vec<Word>) -> (r: &'a mut City)
    requires
        -1073741824 <= old(city).culture.avg_building_floors < 1073741823,
        old(city).culture.avg_building_footprint >= 0,
    ensures
        buildings_added(*old(city), *r, dict@),
        *final(city) == *final(r),
{
    let living = count_alive(&city.citizens);
    let acceptable = living / 100;
    let target = living - acceptable;
    let ghost b0 = city.buildings@;
    let ghost a0 = city.areas@;
    let mut free = count_available_apartments(city);
    while free < target
        invariant
            same_but_estate(*old(city), *city),
            target == alive_count(old(city).citizens@) - alive_count(old(city).citizens@) / 100,
            b0 == old(city).buildings@,
            a0 == old(city).areas@,
            city.buildings@.len() >= b0.len(),
            city.buildings@.take(b0.len() as int) == b0,
            city.areas@.len() >= a0.len(),
            city.areas@.take(a0.len() as int) == a0,
            forall|k: int|
                b0.len() <= k < city.buildings@.len() ==> building_made(
                    #[trigger] city.buildings@[k],
                    word_views(dict@),
                    old(city).culture,
                    true,
                ),
            free == (if residential_areas(city.buildings@) <= usize::MAX {
                residential_areas(city.buildings@)
            } else {
                usize::MAX as nat
            }),
            city.buildings@.len() > b0.len() ==> residential_areas(city.buildings@.drop_last())
                < target,
            -1073741824 <= old(city).culture.avg_building_floors < 1073741823,
            old(city).culture.avg_building_footprint >= 0,
        decreases (if free < target {
            target - free
        } else {
            0
        }),
    {
        let ghost bs = city.buildings@;
        let ghost areas = city.areas@;
        add_building_to_city(city, dict, true);
        proof {
            let nb = city.buildings@;
            assert(nb.drop_last() == bs);
            lemma_new_home_building(nb.last(), word_views(dict@), old(city).culture);
            assert(residential_areas(nb) == residential_areas(bs) + residential_floor_areas(
                nb.last().floors@,
            ));
            assert(nb.take(b0.len() as int) =~= bs.take(b0.len() as int));
            assert forall|k: int| b0.len() <= k < nb.len() implies building_made(
                #[trigger] nb[k],
                word_views(dict@),
                old(city).culture,
                true,
            ) by {
                if k < bs.len() {
                    assert(nb[k] == bs[k]);
                }
            }
            let na = city.areas@;
            if na.len() > areas.len() {
                assert(na.take(a0.len() as int) =~= areas.take(a0.len() as int));
            }
        }
        free = count_available_apartments(city);
    }
    city
}

} // verus!
