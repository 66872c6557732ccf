//! Tags that sort creatures by size, family, kind and diet.
use vstd::prelude::*;
use crate::text::str_views;

verus! {

/// How large a creature is.
#[derive(PartialEq, Eq, Structural, Debug, Clone, Copy)]
pub enum CreatureSize {
    CreatureSizeTiny,
    CreatureSizeSmall,
    CreatureSizeNormal,
    CreatureSizeLarge,
    CreatureSizeGreat,
}

impl CreatureSize {
    /// The name of the value, as data files and templates spell it.
    pub open spec fn label(self) -> Seq<char> {
        match self {
            CreatureSize::CreatureSizeTiny => "CreatureSizeTiny"@,
            CreatureSize::CreatureSizeSmall => "CreatureSizeSmall"@,
            CreatureSize::CreatureSizeNormal => "CreatureSizeNormal"@,
            CreatureSize::CreatureSizeLarge => "CreatureSizeLarge"@,
            CreatureSize::CreatureSizeGreat => "CreatureSizeGreat"@,
        }
    }

    /// The name of the value, as data files and templates spell it.
    pub fn to_string(&self) -> (s: String)
        ensures
            s@ == self.label(),
    {
        match self {
            CreatureSize::CreatureSizeTiny => String::from_str("CreatureSizeTiny"),
            CreatureSize::CreatureSizeSmall => String::from_str("CreatureSizeSmall"),
            CreatureSize::CreatureSizeNormal => String::from_str("CreatureSizeNormal"),
            CreatureSize::CreatureSizeLarge => String::from_str("CreatureSizeLarge"),
            CreatureSize::CreatureSizeGreat => String::from_str("CreatureSizeGreat"),
        }
    }

    /// Every value, in declaration order.
    pub open spec fn all() -> Seq<CreatureSize> {
        seq![CreatureSize::CreatureSizeTiny, CreatureSize::CreatureSizeSmall, CreatureSize::CreatureSizeNormal, CreatureSize::CreatureSizeLarge, CreatureSize::CreatureSizeGreat]
    }

    /// The names of all values, in declaration order.
    pub open spec fn labels() -> Seq<Seq<char>> {
        Self::all().map_values(|t: CreatureSize| t.label())
    }

    /// Every value, in declaration order.
    pub fn iter() -> (v: Vec<CreatureSize>)
        ensures
            v@ == Self::all(),
    {
        let v = vec![CreatureSize::CreatureSizeTiny, CreatureSize::CreatureSizeSmall, CreatureSize::CreatureSizeNormal, CreatureSize::CreatureSizeLarge, CreatureSize::CreatureSizeGreat];
        assert(v@ =~= Self::all());
        v
    }
}

/// The family a creature belongs to.
#[derive(PartialEq, Eq, Structural, Debug, Clone, Copy)]
pub enum CreatureFamily {
    CreatureFamilyMammal,
    CreatureFamilyBird,
    CreatureFamilyReptile,
    CreatureFamilyFish,
    CreatureFamilyInsect,
    CreatureFamilyCrustation,
    CreatureFamilyMollusk,
    CreatureFamilyOther,
}

impl CreatureFamily {
    /// The name of the value, as data files and templates spell it.
    pub open spec fn label(self) -> Seq<char> {
        match self {
            CreatureFamily::CreatureFamilyMammal => "CreatureFamilyMammal"@,
            CreatureFamily::CreatureFamilyBird => "CreatureFamilyBird"@,
            CreatureFamily::CreatureFamilyReptile => "CreatureFamilyReptile"@,
            CreatureFamily::CreatureFamilyFish => "CreatureFamilyFish"@,
            CreatureFamily::CreatureFamilyInsect => "CreatureFamilyInsect"@,
            CreatureFamily::CreatureFamilyCrustation => "CreatureFamilyCrustation"@,
            CreatureFamily::CreatureFamilyMollusk => "CreatureFamilyMollusk"@,
            CreatureFamily::CreatureFamilyOther => "CreatureFamilyOther"@,
        }
    }

    /// The name of the value, as data files and templates spell it.
    pub fn to_string(&self) -> (s: String)
        ensures
            s@ == self.label(),
    {
        match self {
            CreatureFamily::CreatureFamilyMammal => String::from_str("CreatureFamilyMammal"),
            CreatureFamily::CreatureFamilyBird => String::from_str("CreatureFamilyBird"),
            CreatureFamily::CreatureFamilyReptile => String::from_str("CreatureFamilyReptile"),
            CreatureFamily::CreatureFamilyFish => String::from_str("CreatureFamilyFish"),
            CreatureFamily::CreatureFamilyInsect => String::from_str("CreatureFamilyInsect"),
            CreatureFamily::CreatureFamilyCrustation => String::from_str("CreatureFamilyCrustation"),
            CreatureFamily::CreatureFamilyMollusk => String::from_str("CreatureFamilyMollusk"),
            CreatureFamily::CreatureFamilyOther => String::from_str("CreatureFamilyOther"),
        }
    }

    /// Every value, in declaration order.
    pub open spec fn all() -> Seq<CreatureFamily> {
        seq![CreatureFamily::CreatureFamilyMammal, CreatureFamily::CreatureFamilyBird, CreatureFamily::CreatureFamilyReptile, CreatureFamily::CreatureFamilyFish, CreatureFamily::CreatureFamilyInsect, CreatureFamily::CreatureFamilyCrustation, CreatureFamily::CreatureFamilyMollusk, CreatureFamily::CreatureFamilyOther]
    }

    /// The names of all values, in declaration order.
    pub open spec fn labels() -> Seq<Seq<char>> {
        Self::all().map_values(|t: CreatureFamily| t.label())
    }

    /// Every value, in declaration order.
    pub fn iter() -> (v: Vec<CreatureFamily>)
        ensures
            v@ == Self::all(),
    {
        let v = vec![CreatureFamily::CreatureFamilyMammal, CreatureFamily::CreatureFamilyBird, CreatureFamily::CreatureFamilyReptile, CreatureFamily::CreatureFamilyFish, CreatureFamily::CreatureFamilyInsect, CreatureFamily::CreatureFamilyCrustation, CreatureFamily::CreatureFamilyMollusk, CreatureFamily::CreatureFamilyOther];
        assert(v@ =~= Self::all());
        v
    }
}

/// What kind of being a creature is.
#[derive(PartialEq, Eq, Structural, Debug, Clone, Copy)]
pub enum CreatureCategory {
    Creature,
    CreatureAnimal,
    CreatureSentient,
    CreatureBeast,
    CreatureMagical,
}

impl CreatureCategory {
    /// The name of the value, as data files and templates spell it.
    pub open spec fn label(self) -> Seq<char> {
        match self {
            CreatureCategory::Creature => "Creature"@,
            CreatureCategory::CreatureAnimal => "CreatureAnimal"@,
            CreatureCategory::CreatureSentient => "CreatureSentient"@,
            CreatureCategory::CreatureBeast => "CreatureBeast"@,
            CreatureCategory::CreatureMagical => "CreatureMagical"@,
        }
    }

    /// The name of the value, as data files and templates spell it.
    pub fn to_string(&self) -> (s: String)
        ensures
            s@ == self.label(),
    {
        match self {
            CreatureCategory::Creature => String::from_str("Creature"),
            CreatureCategory::CreatureAnimal => String::from_str("CreatureAnimal"),
            CreatureCategory::CreatureSentient => String::from_str("CreatureSentient"),
            CreatureCategory::CreatureBeast => String::from_str("CreatureBeast"),
            CreatureCategory::CreatureMagical => String::from_str("CreatureMagical"),
        }
    }

    /// Every value, in declaration order.
    pub open spec fn all() -> Seq<CreatureCategory> {
        seq![CreatureCategory::Creature, CreatureCategory::CreatureAnimal, CreatureCategory::CreatureSentient, CreatureCategory::CreatureBeast, CreatureCategory::CreatureMagical]
    }

    /// The names of all values, in declaration order.
    pub open spec fn labels() -> Seq<Seq<char>> {
        Self::all().map_values(|t: CreatureCategory| t.label())
    }

    /// Every value, in declaration order.
    pub fn iter() -> (v: Vec<CreatureCategory>)
        ensures
            v@ == Self::all(),
    {
        let v = vec![CreatureCategory::Creature, CreatureCategory::CreatureAnimal, CreatureCategory::CreatureSentient, CreatureCategory::CreatureBeast, CreatureCategory::CreatureMagical];
        assert(v@ =~= Self::all());
        v
    }
}

/// What a creature eats.
#[derive(PartialEq, Eq, Structural, Debug, Clone, Copy)]
pub enum CreatureDiet {
    CreatureDietCarnivorous,
    CreatureDietHerbivorous,
    CreatureDietOmnivorous,
    CreatureDietOther,
}

impl CreatureDiet {
    /// The name of the value, as data files and templates spell it.
    pub open spec fn label(self) -> Seq<char> {
        match self {
            CreatureDiet::CreatureDietCarnivorous => "CreatureDietCarnivorous"@,
            CreatureDiet::CreatureDietHerbivorous => "CreatureDietHerbivorous"@,
            CreatureDiet::CreatureDietOmnivorous => "CreatureDietOmnivorous"@,
            CreatureDiet::CreatureDietOther => "CreatureDietOther"@,
        }
    }

    /// The name of the value, as data files and templates spell it.
    pub fn to_string(&self) -> (s: String)
        ensures
            s@ == self.label(),
    {
        match self {
            CreatureDiet::CreatureDietCarnivorous => String::from_str("CreatureDietCarnivorous"),
            CreatureDiet::CreatureDietHerbivorous => String::from_str("CreatureDietHerbivorous"),
            CreatureDiet::CreatureDietOmnivorous => String::from_str("CreatureDietOmnivorous"),
            CreatureDiet::CreatureDietOther => String::from_str("CreatureDietOther"),
        }
    }

    /// Every value, in declaration order.
    pub open spec fn all() -> Seq<CreatureDiet> {
        seq![CreatureDiet::CreatureDietCarnivorous, CreatureDiet::CreatureDietHerbivorous, CreatureDiet::CreatureDietOmnivorous, CreatureDiet::CreatureDietOther]
    }

    /// The names of all values, in declaration order.
    pub open spec fn labels() -> Seq<Seq<char>> {
        Self::all().map_values(|t: CreatureDiet| t.label())
    }

    /// Every value, in declaration order.
    pub fn iter() -> (v: Vec<CreatureDiet>)
        ensures
            v@ == Self::all(),
    {
        let v = vec![CreatureDiet::CreatureDietCarnivorous, CreatureDiet::CreatureDietHerbivorous, CreatureDiet::CreatureDietOmnivorous, CreatureDiet::CreatureDietOther];
        assert(v@ =~= Self::all());
        v
    }
}

/// The creature tags a noun may carry: every size, then every family.
pub open spec fn spec_creature_tags() -> Seq<Seq<char>> {
    CreatureSize::labels() + CreatureFamily::labels()
}

/// The creature tags a noun may carry: every size, then every family.
pub fn creature_tags() -> (v: Vec<String>)
    ensures
        str_views(v@) == spec_creature_tags(),
{
    let mut output: Vec<String> = Vec::new();
    let tags = CreatureSize::iter();
    let mut i: usize = 0;
    while i < tags.len()
        invariant
            tags@ == CreatureSize::all(),
            i <= tags.len(),
            str_views(output@) == (Seq::<Seq<char>>::empty()) + CreatureSize::labels().take(i as int),
        decreases tags.len() - i,
    {
        let t = tags[i].to_string();
        let ghost prev = str_views(output@);
        output.push(t);
        assert(str_views(output@) =~= prev.push(CreatureSize::labels()[i as int]));
        assert(CreatureSize::labels().take(i + 1) =~= CreatureSize::labels().take(i as int).push(CreatureSize::labels()[i as int]));
        i = i + 1;
        assert(str_views(output@) =~= (Seq::<Seq<char>>::empty()) + CreatureSize::labels().take(i as int));
    }
    assert(CreatureSize::labels().take(tags.len() as int) =~= CreatureSize::labels());
    let tags = CreatureFamily::iter();
    let mut i: usize = 0;
    while i < tags.len()
        invariant
            tags@ == CreatureFamily::all(),
            i <= tags.len(),
            str_views(output@) == (CreatureSize::labels()) + CreatureFamily::labels().take(i as int),
        decreases tags.len() - i,
    {
        let t = tags[i].to_string();
        let ghost prev = str_views(output@);
        output.push(t);
        assert(str_views(output@) =~= prev.push(CreatureFamily::labels()[i as int]));
        assert(CreatureFamily::labels().take(i + 1) =~= CreatureFamily::labels().take(i as int).push(CreatureFamily::labels()[i as int]));
        i = i + 1;
        assert(str_views(output@) =~= (CreatureSize::labels()) + CreatureFamily::labels().take(i as int));
    }
    assert(CreatureFamily::labels().take(tags.len() as int) =~= CreatureFamily::labels());
    assert(str_views(output@) =~= spec_creature_tags());
    output
}

} // verus!
