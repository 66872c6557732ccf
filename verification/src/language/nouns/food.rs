//! Food: its tags, and dishes and drinks made from a dictionary's ingredients.
use crate::culture::CultureConfig;
use crate::language::nouns::creatures::{CreatureCategory, CreatureFamily};
use crate::language::nouns::plants::PlantType;
use crate::language::nouns::NounTag;
use crate::language::{
    contains_string, filter_words_by_tag_and, has_all, has_all_exec, has_any, has_any_exec, tag_and_filter,
    word_views, Word, WordType, WordView,
};
use crate::utils::lemma_filter_subset;
use crate::random::{random_ratio, shuffle, Id};
use crate::text::{chars_of, eq_chars, push_str, str_views, string_of, trim, trim_chars};
use vstd::prelude::*;

verus! {

/// What a food product is made of.
#[derive(PartialEq, Eq, Structural, Debug, Clone, Copy)]
pub enum FoodConditionTags {
    Food,
    BrewableWine,
    BrewableBeer,
    BrewableCider,
    BrewableMead,
    BrewableRum,
    BrewableWhiskey,
    Fruit,
    Grain,
    Leaf,
    Vegetable,
    MeatMammal,
    MeatBird,
    MeatFish,
    Cheese,
}

impl FoodConditionTags {
    /// The name of the value, as data files and templates spell it.
    pub open spec fn label(self) -> Seq<char> {
        match self {
            FoodConditionTags::Food => "Food"@,
            FoodConditionTags::BrewableWine => "BrewableWine"@,
            FoodConditionTags::BrewableBeer => "BrewableBeer"@,
            FoodConditionTags::BrewableCider => "BrewableCider"@,
            FoodConditionTags::BrewableMead => "BrewableMead"@,
            FoodConditionTags::BrewableRum => "BrewableRum"@,
            FoodConditionTags::BrewableWhiskey => "BrewableWhiskey"@,
            FoodConditionTags::Fruit => "Fruit"@,
            FoodConditionTags::Grain => "Grain"@,
            FoodConditionTags::Leaf => "Leaf"@,
            FoodConditionTags::Vegetable => "Vegetable"@,
            FoodConditionTags::MeatMammal => "MeatMammal"@,
            FoodConditionTags::MeatBird => "MeatBird"@,
            FoodConditionTags::MeatFish => "MeatFish"@,
            FoodConditionTags::Cheese => "Cheese"@,
        }
    }

    /// The name of the value, as data files and templates spell it.
    pub fn to_string(&self) -> (s: String)
        ensures
            s@ == self.label(),
    {
        match self {
            FoodConditionTags::Food => String::from_str("Food"),
            FoodConditionTags::BrewableWine => String::from_str("BrewableWine"),
            FoodConditionTags::BrewableBeer => String::from_str("BrewableBeer"),
            FoodConditionTags::BrewableCider => String::from_str("BrewableCider"),
            FoodConditionTags::BrewableMead => String::from_str("BrewableMead"),
            FoodConditionTags::BrewableRum => String::from_str("BrewableRum"),
            FoodConditionTags::BrewableWhiskey => String::from_str("BrewableWhiskey"),
            FoodConditionTags::Fruit => String::from_str("Fruit"),
            FoodConditionTags::Grain => String::from_str("Grain"),
            FoodConditionTags::Leaf => String::from_str("Leaf"),
            FoodConditionTags::Vegetable => String::from_str("Vegetable"),
            FoodConditionTags::MeatMammal => String::from_str("MeatMammal"),
            FoodConditionTags::MeatBird => String::from_str("MeatBird"),
            FoodConditionTags::MeatFish => String::from_str("MeatFish"),
            FoodConditionTags::Cheese => String::from_str("Cheese"),
        }
    }

    /// Every value, in declaration order.
    pub open spec fn all() -> Seq<FoodConditionTags> {
        seq![FoodConditionTags::Food, FoodConditionTags::BrewableWine, FoodConditionTags::BrewableBeer, FoodConditionTags::BrewableCider, FoodConditionTags::BrewableMead, FoodConditionTags::BrewableRum, FoodConditionTags::BrewableWhiskey, FoodConditionTags::Fruit, FoodConditionTags::Grain, FoodConditionTags::Leaf, FoodConditionTags::Vegetable, FoodConditionTags::MeatMammal, FoodConditionTags::MeatBird, FoodConditionTags::MeatFish, FoodConditionTags::Cheese]
    }

    /// The names of all values, in declaration order.
    pub open spec fn labels() -> Seq<Seq<char>> {
        Self::all().map_values(|t: FoodConditionTags| t.label())
    }

    /// Every value, in declaration order.
    pub fn iter() -> (v: Vec<FoodConditionTags>)
        ensures
            v@ == Self::all(),
    {
        let v = vec![FoodConditionTags::Food, FoodConditionTags::BrewableWine, FoodConditionTags::BrewableBeer, FoodConditionTags::BrewableCider, FoodConditionTags::BrewableMead, FoodConditionTags::BrewableRum, FoodConditionTags::BrewableWhiskey, FoodConditionTags::Fruit, FoodConditionTags::Grain, FoodConditionTags::Leaf, FoodConditionTags::Vegetable, FoodConditionTags::MeatMammal, FoodConditionTags::MeatBird, FoodConditionTags::MeatFish, FoodConditionTags::Cheese];
        assert(v@ =~= Self::all());
        v
    }
}

/// The course a dish belongs to.
#[derive(PartialEq, Eq, Structural, Debug, Clone, Copy)]
pub enum FoodCourseTypes {
    Savory,
    Dessert,
}

impl FoodCourseTypes {
    /// The name of the value, as data files and templates spell it.
    pub open spec fn label(self) -> Seq<char> {
        match self {
            FoodCourseTypes::Savory => "Savory"@,
            FoodCourseTypes::Dessert => "Dessert"@,
        }
    }

    /// The name of the value, as data files and templates spell it.
    pub fn to_string(&self) -> (s: String)
        ensures
            s@ == self.label(),
    {
        match self {
            FoodCourseTypes::Savory => String::from_str("Savory"),
            FoodCourseTypes::Dessert => String::from_str("Dessert"),
        }
    }

    /// Every value, in declaration order.
    pub open spec fn all() -> Seq<FoodCourseTypes> {
        seq![FoodCourseTypes::Savory, FoodCourseTypes::Dessert]
    }

    /// The names of all values, in declaration order.
    pub open spec fn labels() -> Seq<Seq<char>> {
        Self::all().map_values(|t: FoodCourseTypes| t.label())
    }

    /// Every value, in declaration order.
    pub fn iter() -> (v: Vec<FoodCourseTypes>)
        ensures
            v@ == Self::all(),
    {
        let v = vec![FoodCourseTypes::Savory, FoodCourseTypes::Dessert];
        assert(v@ =~= Self::all());
        v
    }
}

/// How a food product is served.
#[derive(PartialEq, Eq, Structural, Debug, Clone, Copy)]
pub enum FoodServingTypes {
    FoodDish,
    DrinkSoft,
    DrinkAlcohol,
    DrinkSpirit,
    DrinkHot,
    Baked,
}

impl FoodServingTypes {
    /// The name of the value, as data files and templates spell it.
    pub open spec fn label(self) -> Seq<char> {
        match self {
            FoodServingTypes::FoodDish => "FoodDish"@,
            FoodServingTypes::DrinkSoft => "DrinkSoft"@,
            FoodServingTypes::DrinkAlcohol => "DrinkAlcohol"@,
            FoodServingTypes::DrinkSpirit => "DrinkSpirit"@,
            FoodServingTypes::DrinkHot => "DrinkHot"@,
            FoodServingTypes::Baked => "Baked"@,
        }
    }

    /// The name of the value, as data files and templates spell it.
    pub fn to_string(&self) -> (s: String)
        ensures
            s@ == self.label(),
    {
        match self {
            FoodServingTypes::FoodDish => String::from_str("FoodDish"),
            FoodServingTypes::DrinkSoft => String::from_str("DrinkSoft"),
            FoodServingTypes::DrinkAlcohol => String::from_str("DrinkAlcohol"),
            FoodServingTypes::DrinkSpirit => String::from_str("DrinkSpirit"),
            FoodServingTypes::DrinkHot => String::from_str("DrinkHot"),
            FoodServingTypes::Baked => String::from_str("Baked"),
        }
    }

    /// Every value, in declaration order.
    pub open spec fn all() -> Seq<FoodServingTypes> {
        seq![FoodServingTypes::FoodDish, FoodServingTypes::DrinkSoft, FoodServingTypes::DrinkAlcohol, FoodServingTypes::DrinkSpirit, FoodServingTypes::DrinkHot, FoodServingTypes::Baked]
    }

    /// The names of all values, in declaration order.
    pub open spec fn labels() -> Seq<Seq<char>> {
        Self::all().map_values(|t: FoodServingTypes| t.label())
    }

    /// Every value, in declaration order.
    pub fn iter() -> (v: Vec<FoodServingTypes>)
        ensures
            v@ == Self::all(),
    {
        let v = vec![FoodServingTypes::FoodDish, FoodServingTypes::DrinkSoft, FoodServingTypes::DrinkAlcohol, FoodServingTypes::DrinkSpirit, FoodServingTypes::DrinkHot, FoodServingTypes::Baked];
        assert(v@ =~= Self::all());
        v
    }
}

/// Kinds of alcoholic drink.
#[derive(PartialEq, Eq, Structural, Debug, Clone, Copy)]
pub enum AlcoholTypes {
    Wine,
    Beer,
    Cider,
    Ale,
}

impl AlcoholTypes {
    /// The name of the value, as data files and templates spell it.
    pub open spec fn label(self) -> Seq<char> {
        match self {
            AlcoholTypes::Wine => "Wine"@,
            AlcoholTypes::Beer => "Beer"@,
            AlcoholTypes::Cider => "Cider"@,
            AlcoholTypes::Ale => "Ale"@,
        }
    }

    /// The name of the value, as data files and templates spell it.
    pub fn to_string(&self) -> (s: String)
        ensures
            s@ == self.label(),
    {
        match self {
            AlcoholTypes::Wine => String::from_str("Wine"),
            AlcoholTypes::Beer => String::from_str("Beer"),
            AlcoholTypes::Cider => String::from_str("Cider"),
            AlcoholTypes::Ale => String::from_str("Ale"),
        }
    }

    /// Every value, in declaration order.
    pub open spec fn all() -> Seq<AlcoholTypes> {
        seq![AlcoholTypes::Wine, AlcoholTypes::Beer, AlcoholTypes::Cider, AlcoholTypes::Ale]
    }

    /// The names of all values, in declaration order.
    pub open spec fn labels() -> Seq<Seq<char>> {
        Self::all().map_values(|t: AlcoholTypes| t.label())
    }

    /// Every value, in declaration order.
    pub fn iter() -> (v: Vec<AlcoholTypes>)
        ensures
            v@ == Self::all(),
    {
        let v = vec![AlcoholTypes::Wine, AlcoholTypes::Beer, AlcoholTypes::Cider, AlcoholTypes::Ale];
        assert(v@ =~= Self::all());
        v
    }
}

/// Kinds of spirit.
#[derive(PartialEq, Eq, Structural, Debug, Clone, Copy)]
pub enum AlcoholSpiritTypes {
    Whisky,
    Rum,
}

impl AlcoholSpiritTypes {
    /// The name of the value, as data files and templates spell it.
    pub open spec fn label(self) -> Seq<char> {
        match self {
            AlcoholSpiritTypes::Whisky => "Whisky"@,
            AlcoholSpiritTypes::Rum => "Rum"@,
        }
    }

    /// The name of the value, as data files and templates spell it.
    pub fn to_string(&self) -> (s: String)
        ensures
            s@ == self.label(),
    {
        match self {
            AlcoholSpiritTypes::Whisky => String::from_str("Whisky"),
            AlcoholSpiritTypes::Rum => String::from_str("Rum"),
        }
    }

    /// Every value, in declaration order.
    pub open spec fn all() -> Seq<AlcoholSpiritTypes> {
        seq![AlcoholSpiritTypes::Whisky, AlcoholSpiritTypes::Rum]
    }

    /// The names of all values, in declaration order.
    pub open spec fn labels() -> Seq<Seq<char>> {
        Self::all().map_values(|t: AlcoholSpiritTypes| t.label())
    }

    /// Every value, in declaration order.
    pub fn iter() -> (v: Vec<AlcoholSpiritTypes>)
        ensures
            v@ == Self::all(),
    {
        let v = vec![AlcoholSpiritTypes::Whisky, AlcoholSpiritTypes::Rum];
        assert(v@ =~= Self::all());
        v
    }
}

/// The products a meal can be.
#[derive(PartialEq, Eq, Structural, Debug, Clone, Copy)]
pub enum MealProducts {
    FoodDish,
    DrinkAlcohol,
}

impl MealProducts {
    /// The name of the value, as data files and templates spell it.
    pub open spec fn label(self) -> Seq<char> {
        match self {
            MealProducts::FoodDish => "FoodDish"@,
            MealProducts::DrinkAlcohol => "DrinkAlcohol"@,
        }
    }

    /// The name of the value, as data files and templates spell it.
    pub fn to_string(&self) -> (s: String)
        ensures
            s@ == self.label(),
    {
        match self {
            MealProducts::FoodDish => String::from_str("FoodDish"),
            MealProducts::DrinkAlcohol => String::from_str("DrinkAlcohol"),
        }
    }

    /// Every value, in declaration order.
    pub open spec fn all() -> Seq<MealProducts> {
        seq![MealProducts::FoodDish, MealProducts::DrinkAlcohol]
    }

    /// The names of all values, in declaration order.
    pub open spec fn labels() -> Seq<Seq<char>> {
        Self::all().map_values(|t: MealProducts| t.label())
    }

    /// Every value, in declaration order.
    pub fn iter() -> (v: Vec<MealProducts>)
        ensures
            v@ == Self::all(),
    {
        let v = vec![MealProducts::FoodDish, MealProducts::DrinkAlcohol];
        assert(v@ =~= Self::all());
        v
    }
}

/// The food tags: every serving type, course, ingredient condition and meal product.
pub open spec fn spec_food_tags() -> Seq<Seq<char>> {
    FoodServingTypes::labels() + FoodCourseTypes::labels() + FoodConditionTags::labels() + MealProducts::labels()
}

/// The food tags: every serving type, course, ingredient condition and meal product.
pub fn food_tags() -> (v: Vec<String>)
    ensures
        str_views(v@) == spec_food_tags(),
{
    let mut output: Vec<String> = Vec::new();
    let tags = FoodServingTypes::iter();
    let mut i: usize = 0;
    while i < tags.len()
        invariant
            tags@ == FoodServingTypes::all(),
            i <= tags.len(),
            str_views(output@) == (Seq::<Seq<char>>::empty()) + FoodServingTypes::labels().take(i as int),
        decreases tags.len() - i,
    {
        let t = tags[i].to_string();
        let ghost prev = str_views(output@);
        output.push(t);
        assert(str_views(output@) =~= prev.push(FoodServingTypes::labels()[i as int]));
        assert(FoodServingTypes::labels().take(i + 1) =~= FoodServingTypes::labels().take(i as int).push(FoodServingTypes::labels()[i as int]));
        i = i + 1;
        assert(str_views(output@) =~= (Seq::<Seq<char>>::empty()) + FoodServingTypes::labels().take(i as int));
    }
    assert(FoodServingTypes::labels().take(tags.len() as int) =~= FoodServingTypes::labels());
    let tags = FoodCourseTypes::iter();
    let mut i: usize = 0;
    while i < tags.len()
        invariant
            tags@ == FoodCourseTypes::all(),
            i <= tags.len(),
            str_views(output@) == (FoodServingTypes::labels()) + FoodCourseTypes::labels().take(i as int),
        decreases tags.len() - i,
    {
        let t = tags[i].to_string();
        let ghost prev = str_views(output@);
        output.push(t);
        assert(str_views(output@) =~= prev.push(FoodCourseTypes::labels()[i as int]));
        assert(FoodCourseTypes::labels().take(i + 1) =~= FoodCourseTypes::labels().take(i as int).push(FoodCourseTypes::labels()[i as int]));
        i = i + 1;
        assert(str_views(output@) =~= (FoodServingTypes::labels()) + FoodCourseTypes::labels().take(i as int));
    }
    assert(FoodCourseTypes::labels().take(tags.len() as int) =~= FoodCourseTypes::labels());
    let tags = FoodConditionTags::iter();
    let mut i: usize = 0;
    while i < tags.len()
        invariant
            tags@ == FoodConditionTags::all(),
            i <= tags.len(),
            str_views(output@) == (FoodServingTypes::labels() + FoodCourseTypes::labels()) + FoodConditionTags::labels().take(i as int),
        decreases tags.len() - i,
    {
        let t = tags[i].to_string();
        let ghost prev = str_views(output@);
        output.push(t);
        assert(str_views(output@) =~= prev.push(FoodConditionTags::labels()[i as int]));
        assert(FoodConditionTags::labels().take(i + 1) =~= FoodConditionTags::labels().take(i as int).push(FoodConditionTags::labels()[i as int]));
        i = i + 1;
        assert(str_views(output@) =~= (FoodServingTypes::labels() + FoodCourseTypes::labels()) + FoodConditionTags::labels().take(i as int));
    }
    assert(FoodConditionTags::labels().take(tags.len() as int) =~= FoodConditionTags::labels());
    let tags = MealProducts::iter();
    let mut i: usize = 0;
    while i < tags.len()
        invariant
            tags@ == MealProducts::all(),
            i <= tags.len(),
            str_views(output@) == (FoodServingTypes::labels() + FoodCourseTypes::labels() + FoodConditionTags::labels()) + MealProducts::labels().take(i as int),
        decreases tags.len() - i,
    {
        let t = tags[i].to_string();
        let ghost prev = str_views(output@);
        output.push(t);
        assert(str_views(output@) =~= prev.push(MealProducts::labels()[i as int]));
        assert(MealProducts::labels().take(i + 1) =~= MealProducts::labels().take(i as int).push(MealProducts::labels()[i as int]));
        i = i + 1;
        assert(str_views(output@) =~= (FoodServingTypes::labels() + FoodCourseTypes::labels() + FoodConditionTags::labels()) + MealProducts::labels().take(i as int));
    }
    assert(MealProducts::labels().take(tags.len() as int) =~= MealProducts::labels());
    assert(str_views(output@) =~= spec_food_tags());
    output
}

} // verus!

verus! {

/// The tags that keep a word out of any dish: sentient and magical
/// creatures, and food products themselves.
pub open spec fn base_excludes() -> Seq<Seq<char>> {
    seq![
        CreatureCategory::CreatureSentient.label(),
        CreatureCategory::CreatureMagical.label(),
        NounTag::FoodProduct.label(),
    ]
}

/// A word that can be an ingredient carrying every tag of `wanted` and no
/// tag of `unwanted` (nor of [`base_excludes`]).
pub open spec fn ingredient_fits(w: WordView, wanted: Seq<Seq<char>>, unwanted: Seq<Seq<char>>) -> bool {
    &&& has_all(w.tags, wanted)
    &&& !has_any(w.tags, unwanted)
    &&& !has_any(w.tags, base_excludes())
}

/// Some word of `dict` fits as an ingredient (see [`ingredient_fits`]).
pub open spec fn ingredient_available(
    dict: Seq<WordView>,
    wanted: Seq<Seq<char>>,
    unwanted: Seq<Seq<char>>,
) -> bool {
    exists|i: int| 0 <= i < dict.len() && ingredient_fits(#[trigger] dict[i], wanted, unwanted)
}

fn same_word(a: &Word, b: &Word) -> (r: bool)
    ensures
        r == (a@ == b@),
{
    if a.id != b.id || a.word_type != b.word_type {
        return false;
    }
    if a.tags.len() != b.tags.len() {
        assert(str_views(a.tags@).len() != str_views(b.tags@).len());
        return false;
    }
    let at = chars_of(a.text.as_str());
    let bt = chars_of(b.text.as_str());
    if !eq_chars(&at, &bt) {
        return false;
    }
    let mut i: usize = 0;
    while i < a.tags.len()
        invariant
            i <= a.tags.len() == b.tags.len(),
            forall|j: int| 0 <= j < i ==> a.tags@[j]@ == b.tags@[j]@,
        decreases a.tags.len() - i,
    {
        let x = chars_of(a.tags[i].as_str());
        let y = chars_of(b.tags[i].as_str());
        if !eq_chars(&x, &y) {
            assert(str_views(a.tags@)[i as int] != str_views(b.tags@)[i as int]);
            return false;
        }
        i = i + 1;
    }
    assert(str_views(a.tags@) =~= str_views(b.tags@));
    true
}

fn holds_id(ids: &Vec<Id>, id: Id) -> (b: bool)
    ensures
        b == ids@.contains(id),
{
    let mut i: usize = 0;
    while i < ids.len()
        invariant
            i <= ids.len(),
            forall|j: int| 0 <= j < i ==> ids@[j] != id,
        decreases ids.len() - i,
    {
        if ids[i] == id {
            return true;
        }
        i = i + 1;
    }
    false
}

/// Every id of `ids` is that of one of the ingredients (indices into
/// `dict`).
spec fn staple_ids_ok(dict: Seq<Word>, ingredients: Seq<usize>, ids: Seq<Id>) -> bool {
    forall|x: int|
        #![trigger ids[x]]
        0 <= x < ids.len() ==> exists|q: int|
            0 <= q < ingredients.len() && dict[#[trigger] ingredients[q] as int].id == ids[x]
}

/// Word `w` is one of the ingredients (indices into `dict`).
spec fn among_ingredients(dict: Seq<Word>, ingredients: Seq<usize>, w: Word) -> bool {
    exists|p: int| 0 <= p < ingredients.len() && dict[#[trigger] ingredients[p] as int]@ == w@
}

/// The ids of the staples that are among the ingredients, in order.
spec fn staples_noted(dict: Seq<Word>, ingredients: Seq<usize>, staples: Seq<Word>) -> Seq<Id>
    decreases staples.len(),
{
    if staples.len() == 0 {
        Seq::empty()
    } else {
        let prev = staples_noted(dict, ingredients, staples.drop_last());
        if among_ingredients(dict, ingredients, staples.last()) {
            prev.push(staples.last().id)
        } else {
            prev
        }
    }
}

/// Records the id of each staple of `staples` that is one of the
/// ingredients (by index into `dict`), in order.
fn note_staples(dict: &Vec<Word>, ingredients: &Vec<usize>, staples: &Vec<Word>, ids: &mut Vec<Id>)
    requires
        forall|q: int| 0 <= q < ingredients.len() ==> #[trigger] ingredients@[q] < dict.len(),
        staple_ids_ok(dict@, ingredients@, old(ids)@),
    ensures
        staple_ids_ok(dict@, ingredients@, final(ids)@),
        final(ids)@ == old(ids)@ + staples_noted(dict@, ingredients@, staples@),
{
    let ghost i0 = ids@;
    let mut t: usize = 0;
    while t < staples.len()
        invariant
            forall|q: int| 0 <= q < ingredients.len() ==> #[trigger] ingredients@[q] < dict.len(),
            staple_ids_ok(dict@, ingredients@, ids@),
            t <= staples.len(),
            ids@ == i0 + staples_noted(dict@, ingredients@, staples@.take(t as int)),
        decreases staples.len() - t,
    {
        assert(staples@.take(t + 1).drop_last() =~= staples@.take(t as int));
        assert(staples@.take(t + 1).last() == staples@[t as int]);
        let mut q: usize = 0;
        let mut found = false;
        while q < ingredients.len()
            invariant
                q <= ingredients.len(),
                t < staples.len(),
                forall|p: int| 0 <= p < ingredients.len() ==> #[trigger] ingredients@[p] < dict.len(),
                found ==> exists|p: int|
                    0 <= p < ingredients.len() && dict@[#[trigger] ingredients@[p] as int].id
                        == staples@[t as int].id,
                found <==> exists|p: int|
                    0 <= p < q && dict@[#[trigger] ingredients@[p] as int]@ == staples@[t as int]@,
            decreases ingredients.len() - q,
        {
            if !found && same_word(&dict[ingredients[q]], &staples[t]) {
                found = true;
                assert(dict@[ingredients@[q as int] as int].id == staples@[t as int].id);
            }
            q = q + 1;
        }
        assert(found == among_ingredients(dict@, ingredients@, staples@[t as int]));
        let ghost before_ids = ids@;
        if found {
            let ghost before = ids@;
            ids.push(staples[t].id);
            assert forall|x: int| #![trigger ids@[x]] 0 <= x < ids.len() implies exists|p: int|
                0 <= p < ingredients.len() && dict@[#[trigger] ingredients@[p] as int].id
                    == ids@[x] by {
                if x < before.len() {
                    assert(ids@[x] == before[x]);
                    assert(before[x] == before[x]);
                }
            }
        }
        assert(ids@ =~= i0 + staples_noted(dict@, ingredients@, staples@.take(t + 1)));
        t = t + 1;
    }
    assert(staples@.take(staples.len() as int) =~= staples@);
}

/// An ingredient drawn from `dict`: the words carrying every tag of
/// `wanted` and no tag of `unwanted` (see [`ingredient_fits`]); when some of
/// the culture's staple plants or meats are among them, the draw keeps to
/// those staples with chance 33 in 100. Some word must fit.
pub fn random_ingedient<'a>(
    dict: &'a Vec<Word>,
    culture: &Option<CultureConfig>,
    wanted: Vec<String>,
    unwanted: Vec<String>,
) -> (r: &'a Word)
    requires
        ingredient_available(word_views(dict@), str_views(wanted@), str_views(unwanted@)),
    ensures
        word_views(dict@).contains(r@),
        ingredient_fits(r@, str_views(wanted@), str_views(unwanted@)),
{
    let base = vec![
        CreatureCategory::CreatureSentient.to_string(),
        CreatureCategory::CreatureMagical.to_string(),
        NounTag::FoodProduct.to_string(),
    ];
    assert(str_views(base@) =~= base_excludes());
    let ghost fits = |i: usize|
        i < dict.len() && ingredient_fits(dict@[i as int]@, str_views(wanted@), str_views(unwanted@));
    let mut ingredients: Vec<usize> = Vec::new();
    let mut i: usize = 0;
    while i < dict.len()
        invariant
            i <= dict.len(),
            str_views(base@) == base_excludes(),
            forall|q: int| 0 <= q < ingredients.len() ==> #[trigger] fits(ingredients@[q]),
            fits == (|i: usize|
                i < dict.len() && ingredient_fits(
                    dict@[i as int]@,
                    str_views(wanted@),
                    str_views(unwanted@),
                )),
            (exists|j: int| 0 <= j < i && #[trigger] fits(j as usize)) ==> ingredients.len() > 0,
        decreases dict.len() - i,
    {
        let w = &dict[i];
        if has_all_exec(&w.tags, &wanted) && !has_any_exec(&w.tags, &unwanted) && !has_any_exec(
            &w.tags,
            &base,
        ) {
            ingredients.push(i);
            assert(fits(ingredients@[ingredients.len() - 1]));
        }
        i = i + 1;
    }
    proof {
        let j = choose|j: int|
            0 <= j < dict.len() && ingredient_fits(
                #[trigger] word_views(dict@)[j],
                str_views(wanted@),
                str_views(unwanted@),
            );
        assert(fits(j as usize));
    }
    let mut staples_ids: Vec<Id> = Vec::new();
    assert forall|q: int| 0 <= q < ingredients.len() implies #[trigger] ingredients@[q] < dict.len() by {
        assert(fits(ingredients@[q]));
    }
    match culture {
        Some(c) => {
            note_staples(dict, &ingredients, &c.staple_plants, &mut staples_ids);
            note_staples(dict, &ingredients, &c.staple_meats, &mut staples_ids);
        },
        None => {},
    }
    if staples_ids.len() > 0 && random_ratio(33, 100) {
        let mut kept: Vec<usize> = Vec::new();
        let mut q: usize = 0;
        while q < ingredients.len()
            invariant
                q <= ingredients.len(),
                fits == (|i: usize|
                    i < dict.len() && ingredient_fits(
                        dict@[i as int]@,
                        str_views(wanted@),
                        str_views(unwanted@),
                    )),
                forall|p: int| 0 <= p < ingredients.len() ==> #[trigger] fits(ingredients@[p]),
                forall|p: int| 0 <= p < kept.len() ==> #[trigger] fits(kept@[p]),
                forall|p: int|
                    0 <= p < q && #[trigger] holds_ids_spec(
                        staples_ids@,
                        dict@[ingredients@[p] as int].id,
                    ) ==> kept.len() > 0,
            decreases ingredients.len() - q,
        {
            let x = ingredients[q];
            assert(fits(ingredients@[q as int]));
            if holds_id(&staples_ids, dict[x].id) {
                kept.push(x);
                assert(fits(kept@[kept.len() - 1]));
            }
            q = q + 1;
        }
        proof {
            assert(staples_ids@[0] == staples_ids@[0]);
            let p = choose|p: int|
                0 <= p < ingredients.len() && dict@[#[trigger] ingredients@[p] as int].id
                    == staples_ids@[0];
            assert(staples_ids@.contains(staples_ids@[0]));
            assert(holds_ids_spec(staples_ids@, dict@[ingredients@[p] as int].id));
        }
        ingredients = kept;
    }
    let ghost before = ingredients@;
    shuffle(&mut ingredients);
    proof {
        broadcast use vstd::seq_lib::group_to_multiset_ensures;

        assert(ingredients@.to_multiset().len() == before.to_multiset().len());
        assert(ingredients@.len() > 0);
        assert(ingredients@.to_multiset().count(ingredients@[0]) > 0);
        assert(before.contains(ingredients@[0]));
        let p = choose|p: int| 0 <= p < before.len() && before[p] == ingredients@[0];
        assert(fits(before[p]));
    }
    let k = ingredients[0];
    assert(word_views(dict@)[k as int] == dict@[k as int]@);
    &dict[k]
}

spec fn holds_ids_spec(ids: Seq<Id>, id: Id) -> bool {
    ids.contains(id)
}

} // verus!

verus! {

/// What an ingredient tag of a dish asks of the dictionary: the tags an
/// ingredient must carry, those it must not, and whether it is named as a
/// cheese; `None` for a tag that adds no ingredient.
pub open spec fn ingredient_query(tag: Seq<char>) -> Option<(Seq<Seq<char>>, Seq<Seq<char>>, bool)> {
    let fruit = seq![PlantType::PlantTypeFruit.label()];
    let none = Seq::<Seq<char>>::empty();
    if tag == FoodConditionTags::Vegetable.label() {
        Some(
            (
                seq![PlantType::PlantTypeCrop.label()],
                seq![PlantType::PlantTypeFruit.label(), PlantType::PlantTypeGrain.label()],
                false,
            ),
        )
    } else if tag == FoodConditionTags::Fruit.label() {
        Some((fruit, none, false))
    } else if tag == FoodConditionTags::MeatMammal.label() {
        Some((seq![CreatureFamily::CreatureFamilyMammal.label()], none, false))
    } else if tag == FoodConditionTags::MeatBird.label() {
        Some((seq![CreatureFamily::CreatureFamilyBird.label()], none, false))
    } else if tag == FoodConditionTags::MeatFish.label() {
        Some((seq![CreatureFamily::CreatureFamilyFish.label()], none, false))
    } else if tag == FoodConditionTags::Cheese.label() {
        Some((seq![CreatureFamily::CreatureFamilyMammal.label()], none, true))
    } else if tag == FoodConditionTags::BrewableBeer.label() {
        Some((seq![FoodConditionTags::BrewableBeer.label()], none, false))
    } else if tag == FoodConditionTags::BrewableCider.label() {
        Some((fruit, none, false))
    } else if tag == FoodConditionTags::BrewableWine.label() {
        Some((fruit, none, false))
    } else {
        None
    }
}

/// The dictionary has an ingredient for the tag, when it asks for one.
pub open spec fn tag_available(dict: Seq<WordView>, tag: Seq<char>) -> bool {
    ingredient_query(tag) matches Some(q) ==> ingredient_available(dict, q.0, q.1)
}

/// `piece` names an ingredient for the tag (see [`ingredient_query`]), or is
/// empty for a tag that adds none.
pub open spec fn piece_ok(dict: Seq<WordView>, tag: Seq<char>, piece: Seq<char>) -> bool {
    match ingredient_query(tag) {
        None => piece.len() == 0,
        Some(q) => exists|i: int|
            0 <= i < dict.len() && ingredient_fits(#[trigger] dict[i], q.0, q.1) && piece == (if q.2 {
                dict[i].text + " Cheese"@
            } else {
                dict[i].text
            }),
    }
}

/// Whether `t` names an ingredient condition.
pub open spec fn is_condition_tag(t: Seq<char>) -> bool {
    FoodConditionTags::labels().contains(t)
}

/// The ingredient condition tags among `tags`, in order.
pub open spec fn ingredient_tags(tags: Seq<Seq<char>>) -> Seq<Seq<char>> {
    tags.filter(|t: Seq<char>| is_condition_tag(t))
}

/// Word `v` of the dictionary is a variation of the dish named `text`: a
/// food product with that name.
pub open spec fn is_dish_variation(dict: Seq<WordView>, v: int, text: Seq<char>) -> bool {
    0 <= v < dict.len() && dict[v].text == text && dict[v].tags.contains(NounTag::FoodProduct.label())
}

/// The dish named `text` can be made: it has a variation, and every
/// variation's ingredients are in the dictionary.
pub open spec fn dish_ready(dict: Seq<WordView>, text: Seq<char>) -> bool {
    &&& exists|v: int| #[trigger] is_dish_variation(dict, v, text)
    &&& forall|v: int, t: int|
        is_dish_variation(dict, v, text) && 0 <= t < ingredient_tags(dict[v].tags).len()
            ==> tag_available(dict, #[trigger] ingredient_tags(dict[v].tags)[t])
}

/// The pieces listed as a dish names them, `n` in all: separated by commas,
/// the last by " and ", with no separator before the first piece that is
/// not empty.
pub open spec fn listed(pieces: Seq<Seq<char>>, n: int) -> Seq<char>
    decreases pieces.len(),
{
    if pieces.len() == 0 {
        Seq::empty()
    } else {
        let prev = listed(pieces.drop_last(), n);
        let sep: Seq<char> = if prev.len() > 0 {
            if pieces.len() - 1 == n - 1 {
                " and "@
            } else {
                ", "@
            }
        } else {
            Seq::empty()
        };
        prev + sep + pieces.last()
    }
}

/// `s` names a product of the dish `text`: a variation of the dish, and
/// for each of its ingredient tags a piece (see [`piece_ok`]), listed (see
/// [`listed`]) before the dish's name, trimmed.
pub open spec fn food_product_of(dict: Seq<WordView>, text: Seq<char>, s: Seq<char>) -> bool {
    exists|v: int, pieces: Seq<Seq<char>>|
        #![trigger is_dish_variation(dict, v, text), listed(pieces, pieces.len() as int)]
        is_dish_variation(dict, v, text) && pieces.len() == ingredient_tags(dict[v].tags).len() && (
        forall|i: int|
            0 <= i < pieces.len() ==> piece_ok(
                dict,
                #[trigger] ingredient_tags(dict[v].tags)[i],
                pieces[i],
            )) && s == trim(listed(pieces, pieces.len() as int) + " "@ + text)
}

fn eq_string(a: &String, b: &String) -> (r: bool)
    ensures
        r == (a@ == b@),
{
    let x = chars_of(a.as_str());
    let y = chars_of(b.as_str());
    eq_chars(&x, &y)
}

fn ingredient_text<'a>(
    dict: &'a Vec<Word>,
    culture: &Option<CultureConfig>,
    wanted: Vec<String>,
    unwanted: Vec<String>,
    cheese: bool,
) -> (r: String)
    requires
        ingredient_available(word_views(dict@), str_views(wanted@), str_views(unwanted@)),
    ensures
        exists|i: int|
            0 <= i < dict.len() && ingredient_fits(
                #[trigger] word_views(dict@)[i],
                str_views(wanted@),
                str_views(unwanted@),
            ) && r@ == (if cheese {
                word_views(dict@)[i].text + " Cheese"@
            } else {
                word_views(dict@)[i].text
            }),
{
    let w = random_ingedient(dict, culture, wanted, unwanted);
    let ghost i = choose|i: int| 0 <= i < word_views(dict@).len() && word_views(dict@)[i] == w@;
    let mut out = chars_of(w.text.as_str());
    if cheese {
        push_str(&mut out, " Cheese");
    }
    let r = string_of(&out);
    assert(word_views(dict@)[i] == w@);
    r
}

/// What an ingredient tag asks of the dictionary (see [`ingredient_query`]).
fn ingredient_query_exec(food: &String) -> (r: Option<(Vec<String>, Vec<String>, bool)>)
    ensures
        match r {
            Some(q) => ingredient_query(food@) == Some((str_views(q.0@), str_views(q.1@), q.2)),
            None => ingredient_query(food@) is None,
        },
{
    let fruit_tag = PlantType::PlantTypeFruit.to_string();
    let u: Vec<String> = Vec::new();
    assert(str_views(u@) =~= Seq::<Seq<char>>::empty());
    if eq_string(food, &FoodConditionTags::Vegetable.to_string()) {
        let w = vec![PlantType::PlantTypeCrop.to_string()];
        let u = vec![fruit_tag, PlantType::PlantTypeGrain.to_string()];
        assert(str_views(w@) =~= seq![PlantType::PlantTypeCrop.label()]);
        assert(str_views(u@) =~= seq![
            PlantType::PlantTypeFruit.label(),
            PlantType::PlantTypeGrain.label(),
        ]);
        Some((w, u, false))
    } else {
        let (w, cheese): (Vec<String>, bool) = if eq_string(food, &FoodConditionTags::Fruit.to_string()) {
            (vec![fruit_tag], false)
        } else if eq_string(food, &FoodConditionTags::MeatMammal.to_string()) {
            (vec![CreatureFamily::CreatureFamilyMammal.to_string()], false)
        } else if eq_string(food, &FoodConditionTags::MeatBird.to_string()) {
            (vec![CreatureFamily::CreatureFamilyBird.to_string()], false)
        } else if eq_string(food, &FoodConditionTags::MeatFish.to_string()) {
            (vec![CreatureFamily::CreatureFamilyFish.to_string()], false)
        } else if eq_string(food, &FoodConditionTags::Cheese.to_string()) {
            (vec![CreatureFamily::CreatureFamilyMammal.to_string()], true)
        } else if eq_string(food, &FoodConditionTags::BrewableBeer.to_string()) {
            (vec![FoodConditionTags::BrewableBeer.to_string()], false)
        } else if eq_string(food, &FoodConditionTags::BrewableCider.to_string()) {
            (vec![fruit_tag], false)
        } else if eq_string(food, &FoodConditionTags::BrewableWine.to_string()) {
            (vec![fruit_tag], false)
        } else {
            return None;
        };
        let ghost q = ingredient_query(food@).unwrap();
        assert(str_views(w@) =~= q.0);
        Some((w, u, cheese))
    }
}

/// A piece of a dish's name for the ingredient tag `food` (see
/// [`piece_ok`]).
fn ingredient_piece(dict: &Vec<Word>, culture: &Option<CultureConfig>, food: &String) -> (r: String)
    requires
        tag_available(word_views(dict@), food@),
    ensures
        piece_ok(word_views(dict@), food@, r@),
{
    match ingredient_query_exec(food) {
        Some((w, u, cheese)) => ingredient_text(dict, culture, w, u, cheese),
        None => String::new(),
    }
}

/// The tags no ingredient may carry: sentient or magical creatures, and
/// food products.
fn base_exclude_list() -> (v: Vec<String>)
    ensures
        str_views(v@) == base_excludes(),
{
    let v = vec![
        CreatureCategory::CreatureSentient.to_string(),
        CreatureCategory::CreatureMagical.to_string(),
        NounTag::FoodProduct.to_string(),
    ];
    assert(str_views(v@) =~= base_excludes());
    v
}

fn ingredient_available_exec(dict: &Vec<Word>, wanted: &Vec<String>, unwanted: &Vec<String>) -> (b: bool)
    ensures
        b == ingredient_available(word_views(dict@), str_views(wanted@), str_views(unwanted@)),
{
    let base = base_exclude_list();
    let mut i: usize = 0;
    while i < dict.len()
        invariant
            i <= dict.len(),
            str_views(base@) == base_excludes(),
            forall|q: int|
                0 <= q < i ==> !ingredient_fits(#[trigger] word_views(dict@)[q], str_views(wanted@), str_views(unwanted@)),
        decreases dict.len() - i,
    {
        let w = &dict[i];
        assert(word_views(dict@)[i as int] == w@);
        if has_all_exec(&w.tags, wanted) && !has_any_exec(&w.tags, unwanted) && !has_any_exec(&w.tags, &base) {
            return true;
        }
        i = i + 1;
    }
    false
}

fn tag_available_exec(dict: &Vec<Word>, tag: &String) -> (b: bool)
    ensures
        b == tag_available(word_views(dict@), tag@),
{
    match ingredient_query_exec(tag) {
        Some((w, u, _cheese)) => ingredient_available_exec(dict, &w, &u),
        None => true,
    }
}

proof fn lemma_queried_tags_are_conditions(t: Seq<char>)
    ensures
        ingredient_query(t) is Some ==> is_condition_tag(t),
{
    let l = FoodConditionTags::labels();
    assert(l[1] == FoodConditionTags::BrewableWine.label());
    assert(l[2] == FoodConditionTags::BrewableBeer.label());
    assert(l[3] == FoodConditionTags::BrewableCider.label());
    assert(l[7] == FoodConditionTags::Fruit.label());
    assert(l[10] == FoodConditionTags::Vegetable.label());
    assert(l[11] == FoodConditionTags::MeatMammal.label());
    assert(l[12] == FoodConditionTags::MeatBird.label());
    assert(l[13] == FoodConditionTags::MeatFish.label());
    assert(l[14] == FoodConditionTags::Cheese.label());
}

/// Whether the dish named `text` can be made (see [`dish_ready`]).
pub fn dish_ready_exec(dict: &Vec<Word>, text: &String) -> (b: bool)
    ensures
        b == dish_ready(word_views(dict@), text@),
{
    let ghost d = word_views(dict@);
    let ghost cond = |t: Seq<char>| is_condition_tag(t);
    let product = NounTag::FoodProduct.to_string();
    let mut found = false;
    let mut v: usize = 0;
    while v < dict.len()
        invariant
            v <= dict.len(),
            d == word_views(dict@),
            cond == (|t: Seq<char>| is_condition_tag(t)),
            product@ == NounTag::FoodProduct.label(),
            found == exists|x: int| 0 <= x < v && #[trigger] is_dish_variation(d, x, text@),
            forall|x: int, t: int|
                0 <= x < v && is_dish_variation(d, x, text@) && 0 <= t < ingredient_tags(d[x].tags).len()
                    ==> tag_available(d, #[trigger] ingredient_tags(d[x].tags)[t]),
        decreases dict.len() - v,
    {
        let w = &dict[v];
        assert(d[v as int] == w@);
        if eq_string(&w.text, text) && contains_string(&w.tags, &product) {
            assert(is_dish_variation(d, v as int, text@));
            found = true;
            let mut k: usize = 0;
            while k < w.tags.len()
                invariant
                    v < dict.len(),
                    d == word_views(dict@),
                    cond == (|t: Seq<char>| is_condition_tag(t)),
                    *w == dict@[v as int],
                    d[v as int] == w@,
                    is_dish_variation(d, v as int, text@),
                    k <= w.tags.len(),
                    forall|j: int| 0 <= j < k ==> tag_available(d, #[trigger] str_views(w.tags@)[j]),
                decreases w.tags.len() - k,
            {
                if !tag_available_exec(dict, &w.tags[k]) {
                    proof {
                        let t = str_views(w.tags@)[k as int];
                        assert(t == w.tags@[k as int]@);
                        lemma_queried_tags_are_conditions(t);
                        lemma_filter_subset(str_views(w.tags@), cond);
                        assert(ingredient_tags(d[v as int].tags) == str_views(w.tags@).filter(cond));
                        assert(str_views(w.tags@).filter(cond).contains(t));
                        let p = choose|p: int|
                            0 <= p < str_views(w.tags@).filter(cond).len() && str_views(w.tags@).filter(
                                cond,
                            )[p] == t;
                        assert(!tag_available(d, ingredient_tags(d[v as int].tags)[p]));
                    }
                    return false;
                }
                k = k + 1;
            }
            proof {
                lemma_filter_subset(str_views(w.tags@), cond);
                assert(ingredient_tags(d[v as int].tags) == str_views(w.tags@).filter(cond));
                assert forall|t: int| 0 <= t < ingredient_tags(d[v as int].tags).len() implies tag_available(
                    d,
                    #[trigger] ingredient_tags(d[v as int].tags)[t],
                ) by {
                    let e = ingredient_tags(d[v as int].tags)[t];
                    assert(str_views(w.tags@).contains(e));
                    let j = choose|j: int| 0 <= j < str_views(w.tags@).len() && str_views(w.tags@)[j] == e;
                    assert(tag_available(d, str_views(w.tags@)[j]));
                }
            }
        }
        v = v + 1;
    }
    found
}

/// A product of the dish `dish_type`: one of its variations in the
/// dictionary, drawn at random, gives the ingredient tags; each tag gives a
/// piece (see [`ingredient_piece`]); the pieces are listed before the dish's
/// name (see [`food_product_of`]). The dish must be ready to make (see
/// [`dish_ready`]).
pub fn random_food_product_of_type(
    dict: &Vec<Word>,
    culture: &Option<CultureConfig>,
    dish_type: &Word,
) -> (r: String)
    requires
        dish_ready(word_views(dict@), dish_type.text@),
    ensures
        food_product_of(word_views(dict@), dish_type.text@, r@),
{
    let ghost d = word_views(dict@);
    let product_tag = NounTag::FoodProduct.to_string();
    let mut variations: Vec<usize> = Vec::new();
    let mut i: usize = 0;
    while i < dict.len()
        invariant
            i <= dict.len(),
            d == word_views(dict@),
            product_tag@ == NounTag::FoodProduct.label(),
            forall|q: int|
                0 <= q < variations.len() ==> #[trigger] variations@[q] < dict.len()
                    && is_dish_variation(d, variations@[q] as int, dish_type.text@),
            (exists|v: int| 0 <= v < i && #[trigger] is_dish_variation(d, v, dish_type.text@))
                ==> variations.len() > 0,
        decreases dict.len() - i,
    {
        if eq_string(&dict[i].text, &dish_type.text) && crate::language::contains_string(
            &dict[i].tags,
            &product_tag,
        ) {
            variations.push(i);
            assert(is_dish_variation(d, variations@[variations.len() - 1] as int, dish_type.text@));
        }
        i = i + 1;
    }
    proof {
        let w = choose|w: int| #[trigger] is_dish_variation(d, w, dish_type.text@);
        assert(0 <= w < dict.len());
        assert(variations.len() > 0);
    }
    let ghost before = variations@;
    shuffle(&mut variations);
    proof {
        broadcast use vstd::seq_lib::group_to_multiset_ensures;

        assert(variations@.to_multiset().len() == before.to_multiset().len());
    }
    let v = variations[0];
    proof {
        broadcast use vstd::seq_lib::group_to_multiset_ensures;

        assert(variations@.to_multiset().count(variations@[0]) > 0);
        assert(before.contains(variations@[0]));
        let p = choose|p: int| 0 <= p < before.len() && before[p] == variations@[0];
        assert(is_dish_variation(d, before[p] as int, dish_type.text@));
    }
    let tags = &dict[v].tags;
    assert(d[v as int].tags == str_views(tags@));
    let ghost pred = |t: Seq<char>| is_condition_tag(t);
    let conditions = FoodConditionTags::iter();
    let mut ingredients: Vec<String> = Vec::new();
    let mut t: usize = 0;
    while t < tags.len()
        invariant
            t <= tags.len(),
            pred == (|t: Seq<char>| is_condition_tag(t)),
            conditions@ == FoodConditionTags::all(),
            str_views(ingredients@) == str_views(tags@).take(t as int).filter(pred),
        decreases tags.len() - t,
    {
        assert(str_views(tags@).take(t + 1).drop_last() =~= str_views(tags@).take(t as int));
        reveal_with_fuel(Seq::filter, 1);
        let mut c: usize = 0;
        let mut is_condition = false;
        while c < conditions.len()
            invariant
                c <= conditions.len(),
                t < tags.len(),
                conditions@ == FoodConditionTags::all(),
                is_condition == (exists|e: int|
                    0 <= e < c && FoodConditionTags::labels()[e] == tags@[t as int]@),
            decreases conditions.len() - c,
        {
            let name = conditions[c].to_string();
            assert(FoodConditionTags::labels()[c as int] == conditions@[c as int].label());
            if eq_string(&name, &tags[t]) {
                is_condition = true;
            }
            c = c + 1;
        }
        assert(is_condition == is_condition_tag(str_views(tags@)[t as int])) by {
            if is_condition_tag(str_views(tags@)[t as int]) {
                let e = choose|e: int|
                    0 <= e < FoodConditionTags::labels().len() && FoodConditionTags::labels()[e]
                        == str_views(tags@)[t as int];
            }
        }
        if is_condition {
            let ghost prev = str_views(ingredients@);
            ingredients.push(tags[t].clone());
            assert(str_views(ingredients@) =~= prev.push(str_views(tags@)[t as int]));
        }
        t = t + 1;
    }
    assert(str_views(tags@).take(tags.len() as int) =~= str_views(tags@));
    assert(str_views(ingredients@) == ingredient_tags(d[v as int].tags));
    let ghost itags = ingredient_tags(d[v as int].tags);
    let n = ingredients.len();
    let mut pieces: Vec<String> = Vec::new();
    let mut out: Vec<char> = Vec::new();
    let mut k: usize = 0;
    while k < n
        invariant
            k <= n == ingredients.len(),
            d == word_views(dict@),
            itags == str_views(ingredients@),
            dish_ready(d, dish_type.text@),
            is_dish_variation(d, v as int, dish_type.text@),
            itags == ingredient_tags(d[v as int].tags),
            pieces.len() == k,
            forall|q: int| 0 <= q < k ==> piece_ok(d, #[trigger] itags[q], str_views(pieces@)[q]),
            out@ == listed(str_views(pieces@), n as int),
        decreases n - k,
    {
        assert(tag_available(d, itags[k as int]));
        let piece = ingredient_piece(dict, culture, &ingredients[k]);
        let ghost prev = str_views(pieces@);
        if out.len() > 0 {
            if k == n - 1 {
                push_str(&mut out, " and ");
            } else {
                push_str(&mut out, ", ");
            }
        }
        let pc = chars_of(piece.as_str());
        crate::text::push_all(&mut out, &pc);
        pieces.push(piece);
        proof {
            let np = str_views(pieces@);
            assert(np =~= prev.push(pc@));
            assert(np.drop_last() =~= prev);
        }
        k = k + 1;
    }
    push_str(&mut out, " ");
    push_str(&mut out, dish_type.text.as_str());
    let trimmed = trim_chars(&out);
    proof {
        let ps = str_views(pieces@);
        assert(ps.len() == itags.len());
        assert(is_dish_variation(d, v as int, dish_type.text@));
        assert(listed(ps, ps.len() as int) == listed(ps, n as int));
    }
    string_of(&trimmed)
}

} // verus!

verus! {

/// The tags a dish of product type `p` carries: food product and `p`.
pub open spec fn dish_tags(p: MealProducts) -> Seq<Seq<char>> {
    seq![NounTag::FoodProduct.label(), p.label()]
}

/// A dish of product type `product_type`: among the nouns carrying the food
/// product tag and that type, a name is drawn at random, each name equally
/// likely, and then one of the words with that name. Some such noun must
/// exist.
pub fn random_dish_type(
    dict: &Vec<Word>,
    culture: &Option<CultureConfig>,
    product_type: &MealProducts,
) -> (r: Word)
    requires
        tag_and_filter(word_views(dict@), WordType::Noun, dish_tags(*product_type)).len() > 0,
    ensures
        tag_and_filter(word_views(dict@), WordType::Noun, dish_tags(*product_type)).contains(r@),
{
    let tags = vec![NounTag::FoodProduct.to_string(), product_type.to_string()];
    assert(str_views(tags@) =~= dish_tags(*product_type));
    let repeats = filter_words_by_tag_and(dict, WordType::Noun, tags);
    let ghost all = word_views(repeats@);
    let mut unique: Vec<usize> = Vec::new();
    let mut i: usize = 0;
    while i < repeats.len()
        invariant
            i <= repeats.len(),
            forall|q: int| 0 <= q < unique.len() ==> #[trigger] unique@[q] < repeats.len(),
            i > 0 ==> unique.len() > 0,
        decreases repeats.len() - i,
    {
        let mut seen = false;
        let mut q: usize = 0;
        while q < unique.len()
            invariant
                q <= unique.len(),
                i < repeats.len(),
                seen ==> unique.len() > 0,
                forall|p: int| 0 <= p < unique.len() ==> #[trigger] unique@[p] < repeats.len(),
            decreases unique.len() - q,
        {
            if eq_string(&repeats[unique[q]].text, &repeats[i].text) {
                seen = true;
            }
            q = q + 1;
        }
        if !seen {
            unique.push(i);
        }
        i = i + 1;
    }
    let ghost before = unique@;
    shuffle(&mut unique);
    proof {
        broadcast use vstd::seq_lib::group_to_multiset_ensures;

        assert(unique@.to_multiset().len() == before.to_multiset().len());
        assert(unique@.to_multiset().count(unique@[0]) > 0);
        assert(before.contains(unique@[0]));
    }
    let u = unique[0];
    let mut kept: Vec<usize> = Vec::new();
    let mut q: usize = 0;
    while q < repeats.len()
        invariant
            q <= repeats.len(),
            u < repeats.len(),
            forall|p: int| 0 <= p < kept.len() ==> #[trigger] kept@[p] < repeats.len(),
            q > u ==> kept.len() > 0,
        decreases repeats.len() - q,
    {
        if eq_string(&repeats[q].text, &repeats[u].text) {
            kept.push(q);
        }
        q = q + 1;
    }
    let ghost kept0 = kept@;
    shuffle(&mut kept);
    proof {
        broadcast use vstd::seq_lib::group_to_multiset_ensures;

        assert(kept@.to_multiset().len() == kept0.to_multiset().len());
        assert(kept@.to_multiset().count(kept@[0]) > 0);
        assert(kept0.contains(kept@[0]));
    }
    let chosen = kept[0];
    let r = repeats[chosen].copy();
    assert(all[chosen as int] == r@);
    r
}

/// A product of a dish of type `product_type` (see [`random_dish_type`],
/// [`random_food_product_of_type`]). Some such dish must exist, and each
/// must be ready to make.
pub fn random_food_product(
    dict: &Vec<Word>,
    culture: &Option<CultureConfig>,
    product_type: MealProducts,
) -> (r: String)
    requires
        tag_and_filter(word_views(dict@), WordType::Noun, dish_tags(product_type)).len() > 0,
        forall|w: int|
            0 <= w < tag_and_filter(word_views(dict@), WordType::Noun, dish_tags(product_type)).len()
                ==> dish_ready(
                word_views(dict@),
                #[trigger] tag_and_filter(
                    word_views(dict@),
                    WordType::Noun,
                    dish_tags(product_type),
                )[w].text,
            ),
    ensures
        exists|w: int|
            0 <= w < tag_and_filter(word_views(dict@), WordType::Noun, dish_tags(product_type)).len()
                && food_product_of(
                word_views(dict@),
                #[trigger] tag_and_filter(
                    word_views(dict@),
                    WordType::Noun,
                    dish_tags(product_type),
                )[w].text,
                r@,
            ),
{
    let dish = random_dish_type(dict, culture, &product_type);
    let ghost f = tag_and_filter(word_views(dict@), WordType::Noun, dish_tags(product_type));
    let ghost w = choose|w: int| 0 <= w < f.len() && f[w] == dish@;
    assert(dish_ready(word_views(dict@), f[w].text));
    random_food_product_of_type(dict, culture, &dish)
}

} // verus!
