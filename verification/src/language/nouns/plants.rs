//! Tags for plants.
use vstd::prelude::*;
use crate::text::str_views;

verus! {

/// The kind of a plant.
#[derive(PartialEq, Eq, Structural, Debug, Clone, Copy)]
pub enum PlantType {
    Plant,
    PlantTypeNormal,
    PlantTypeTree,
    PlantTypeFlower,
    PlantTypeCrop,
    PlantTypeFruit,
    PlantTypeGrain,
}

impl PlantType {
    /// The name of the value, as data files and templates spell it.
    pub open spec fn label(self) -> Seq<char> {
        match self {
            PlantType::Plant => "Plant"@,
            PlantType::PlantTypeNormal => "PlantTypeNormal"@,
            PlantType::PlantTypeTree => "PlantTypeTree"@,
            PlantType::PlantTypeFlower => "PlantTypeFlower"@,
            PlantType::PlantTypeCrop => "PlantTypeCrop"@,
            PlantType::PlantTypeFruit => "PlantTypeFruit"@,
            PlantType::PlantTypeGrain => "PlantTypeGrain"@,
        }
    }

    /// The name of the value, as data files and templates spell it.
    pub fn to_string(&self) -> (s: String)
        ensures
            s@ == self.label(),
    {
        match self {
            PlantType::Plant => String::from_str("Plant"),
            PlantType::PlantTypeNormal => String::from_str("PlantTypeNormal"),
            PlantType::PlantTypeTree => String::from_str("PlantTypeTree"),
            PlantType::PlantTypeFlower => String::from_str("PlantTypeFlower"),
            PlantType::PlantTypeCrop => String::from_str("PlantTypeCrop"),
            PlantType::PlantTypeFruit => String::from_str("PlantTypeFruit"),
            PlantType::PlantTypeGrain => String::from_str("PlantTypeGrain"),
        }
    }

    /// Every value, in declaration order.
    pub open spec fn all() -> Seq<PlantType> {
        seq![PlantType::Plant, PlantType::PlantTypeNormal, PlantType::PlantTypeTree, PlantType::PlantTypeFlower, PlantType::PlantTypeCrop, PlantType::PlantTypeFruit, PlantType::PlantTypeGrain]
    }

    /// The names of all values, in declaration order.
    pub open spec fn labels() -> Seq<Seq<char>> {
        Self::all().map_values(|t: PlantType| t.label())
    }

    /// Every value, in declaration order.
    pub fn iter() -> (v: Vec<PlantType>)
        ensures
            v@ == Self::all(),
    {
        let v = vec![PlantType::Plant, PlantType::PlantTypeNormal, PlantType::PlantTypeTree, PlantType::PlantTypeFlower, PlantType::PlantTypeCrop, PlantType::PlantTypeFruit, PlantType::PlantTypeGrain];
        assert(v@ =~= Self::all());
        v
    }
}

impl Default for PlantType {
    fn default() -> (r: Self)
        ensures
            r == PlantType::PlantTypeNormal,
    {
        PlantType::PlantTypeNormal
    }
}

/// The plant tags: every plant kind.
pub open spec fn spec_plant_tags() -> Seq<Seq<char>> {
    PlantType::labels()
}

/// The plant tags: every plant kind.
pub fn plant_tags() -> (v: Vec<String>)
    ensures
        str_views(v@) == spec_plant_tags(),
{
    let mut output: Vec<String> = Vec::new();
    let tags = PlantType::iter();
    let mut i: usize = 0;
    while i < tags.len()
        invariant
            tags@ == PlantType::all(),
            i <= tags.len(),
            str_views(output@) == (Seq::<Seq<char>>::empty()) + PlantType::labels().take(i as int),
        decreases tags.len() - i,
    {
        let t = tags[i].to_string();
        let ghost prev = str_views(output@);
        output.push(t);
        assert(str_views(output@) =~= prev.push(PlantType::labels()[i as int]));
        assert(PlantType::labels().take(i + 1) =~= PlantType::labels().take(i as int).push(PlantType::labels()[i as int]));
        i = i + 1;
        assert(str_views(output@) =~= (Seq::<Seq<char>>::empty()) + PlantType::labels().take(i as int));
    }
    assert(PlantType::labels().take(tags.len() as int) =~= PlantType::labels());
    assert(str_views(output@) =~= spec_plant_tags());
    output
}

} // verus!
