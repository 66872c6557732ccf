//! Food outlets: cafes, restaurants and the menus they serve.
use crate::city::institutions::{
    fresh_institution, InstituteType, Institution, PRIVATE_INSTITUTE_BASE_SIZE,
};
use crate::culture::CultureConfig;
use crate::language::nouns::food::{
    dish_ready, dish_ready_exec, dish_tags, food_product_of, random_dish_type, random_food_product_of_type,
    MealProducts,
};
use crate::language::nouns::NounTag;
use crate::language::{
    contains_string, filter_words_by_tag_and, random_word_by_tag, tag_and_filter, tag_selection, word_views,
    words_by_tag, Era, Word, WordType, WordView,
};
use crate::random::{new_id, random_below};
use crate::templater::{render_template_2, renders};
use crate::text::{
    chars_of, contains_exec, eq_chars, contains_seq, push_all, push_str, replace_all, replace_chars,
    str_views, string_of, without_char, without_char_exec,
};
use vstd::prelude::*;

verus! {

/// The era of an optional culture.
pub open spec fn era_of(culture: Option<CultureConfig>) -> Option<Era> {
    match culture {
        Some(c) => c.era,
        None => None,
    }
}

fn era_exec(culture: &Option<CultureConfig>) -> (r: Option<Era>)
    ensures
        r == era_of(*culture),
{
    match culture {
        Some(c) => c.era,
        None => None,
    }
}

/// Whether `s` is among the texts `v`.
fn holds_text(v: &Vec<String>, s: &String) -> (b: bool)
    ensures
        b == str_views(v@).contains(s@),
{
    contains_string(v, s)
}

/// A menu of products of the dish `text`: items each a product of the dish
/// (see [`food_product_of`]), none twice, at most `max` of them.
pub open spec fn menu_of(dict: Seq<WordView>, text: Seq<char>, menu: Seq<Seq<char>>, max: int) -> bool {
    &&& menu.len() <= max
    &&& menu.no_duplicates()
    &&& forall|i: int| 0 <= i < menu.len() ==> food_product_of(dict, text, #[trigger] menu[i])
}

/// The menu `menu` with the items `draws` added in turn, each unless it is
/// on the menu already.
pub open spec fn with_draws(menu: Seq<Seq<char>>, draws: Seq<Seq<char>>) -> Seq<Seq<char>>
    decreases draws.len(),
{
    if draws.len() == 0 {
        menu
    } else {
        let m = with_draws(menu, draws.drop_last());
        if m.contains(draws.last()) {
            m
        } else {
            m.push(draws.last())
        }
    }
}

/// Adds `count` draws of products of the dish `dish` to the menu, passing
/// over those already on it (see [`with_draws`]).
fn add_products(
    dict: &Vec<Word>,
    culture: &Option<CultureConfig>,
    dish: &Word,
    count: usize,
    menu: &mut Vec<String>,
)
    requires
        dish_ready(word_views(dict@), dish.text@),
        str_views(old(menu)@).no_duplicates(),
    ensures
        old(menu).len() <= final(menu).len() <= old(menu).len() + count,
        str_views(final(menu)@).no_duplicates(),
        str_views(final(menu)@).take(old(menu).len() as int) == str_views(old(menu)@),
        forall|i: int|
            old(menu).len() <= i < final(menu).len() ==> food_product_of(
                word_views(dict@),
                dish.text@,
                #[trigger] str_views(final(menu)@)[i],
            ),
        exists|draws: Seq<Seq<char>>|
            #![trigger with_draws(str_views(old(menu)@), draws)]
            draws.len() == count && (forall|i: int|
                0 <= i < count ==> food_product_of(word_views(dict@), dish.text@, #[trigger] draws[i]))
                && str_views(final(menu)@) == with_draws(str_views(old(menu)@), draws),
{
    let ghost m0 = str_views(menu@);
    let ghost mut draws: Seq<Seq<char>> = Seq::empty();
    let mut k: usize = 0;
    assert(str_views(menu@).take(m0.len() as int) =~= m0);
    while k < count
        invariant
            k <= count,
            dish_ready(word_views(dict@), dish.text@),
            menu.len() <= m0.len() + k,
            str_views(menu@).no_duplicates(),
            str_views(menu@).take(m0.len() as int) == m0,
            m0.len() <= menu.len(),
            forall|i: int|
                m0.len() <= i < menu.len() ==> food_product_of(
                    word_views(dict@),
                    dish.text@,
                    #[trigger] str_views(menu@)[i],
                ),
            draws.len() == k,
            forall|i: int| 0 <= i < k ==> food_product_of(word_views(dict@), dish.text@, #[trigger] draws[i]),
            str_views(menu@) == with_draws(m0, draws),
        decreases count - k,
    {
        let item = random_food_product_of_type(dict, culture, dish);
        let ghost nd = draws.push(item@);
        assert(nd.drop_last() =~= draws);
        if !holds_text(menu, &item) {
            let ghost prev = str_views(menu@);
            menu.push(item);
            proof {
                let now = str_views(menu@);
                assert(now =~= prev.push(item@));
                assert(now.take(m0.len() as int) =~= prev.take(m0.len() as int));
                assert forall|a: int, b: int| 0 <= a < b < now.len() implies now[a] != now[b] by {
                    if b == prev.len() {
                        assert(prev.contains(prev[a]));
                    }
                }
            }
        }
        proof {
            draws = nd;
        }
        k = k + 1;
    }
}

/// The templates of the names of specialist food outlets serving the dish
/// `text`.
pub open spec fn specialist_food_templates(text: Seq<char>) -> Seq<Seq<char>> {
    seq![
        "{{Adjective(Position, Quality, Age, Colour)}} {{Noun(LastName)}} "@ + text
            + " {{Noun(RetailerFoodSpecialist)}}"@,
        "{{Adjective(Position, Quality, Age, Colour)}} {{Noun(LastName)}}'s "@ + text
            + " {{Noun(RetailerFoodSpecialist)}}"@,
        "{{Noun(LastName)}} "@ + text + " {{Noun(RetailerFoodSpecialist)}}"@,
        "{{Noun(LastName)}}'s "@ + text + " {{Noun(RetailerFoodSpecialist)}}"@,
    ]
}

fn framed(before: &str, text: &String, after: &str) -> (r: String)
    ensures
        r@ == before@ + text@ + after@,
{
    let mut out = chars_of(before);
    push_str(&mut out, text.as_str());
    push_str(&mut out, after);
    string_of(&out)
}

/// The dictionary can stock a specialist food outlet: it has dishes, and
/// every dish can be made (see [`dish_ready`]).
pub open spec fn dishes_ready(dict: Seq<WordView>) -> bool {
    let dishes = tag_and_filter(dict, WordType::Noun, dish_tags(MealProducts::FoodDish));
    &&& dishes.len() > 0
    &&& forall|i: int| 0 <= i < dishes.len() ==> dish_ready(dict, #[trigger] dishes[i].text)
}

/// The dishes of the dictionary.
pub open spec fn dish_list(dict: Seq<WordView>) -> Seq<WordView> {
    tag_and_filter(dict, WordType::Noun, dish_tags(MealProducts::FoodDish))
}

/// `name` renders one of the specialist templates around the dish `text`.
pub open spec fn specialist_named(dict: Seq<WordView>, era: Option<Era>, text: Seq<char>, name: Seq<char>) -> bool {
    exists|k: int| 0 <= k < 4 && #[trigger] renders(dict, era, specialist_food_templates(text)[k], name)
}

/// A specialist food outlet: a dish drawn from the dictionary (see
/// [`random_dish_type`]), a menu of up to 7 of its products, and a name
/// from the templates around the dish's name.
pub open spec fn specialist_outlet_made(i: Institution, dict: Seq<WordView>, era: Option<Era>) -> bool {
    &&& i.public == false
    &&& i.institute_type == InstituteType::SpecialistFoodService
    &&& i.size < PRIVATE_INSTITUTE_BASE_SIZE
    &&& i.annual_visits == 0
    &&& exists|d: int|
        0 <= d < dish_list(dict).len()
            && menu_of(dict, (#[trigger] dish_list(dict)[d]).text, str_views(i.serves@), 7)
            && specialist_named(dict, era, dish_list(dict)[d].text, i.name@)
}

/// A specialist food outlet (see [`specialist_outlet_made`]). The
/// dictionary must have dishes that can be made (see [`dishes_ready`]).
pub fn random_specialist_food_outlet(dict: &Vec<Word>, culture: &Option<CultureConfig>) -> (r:
    Institution)
    requires
        dishes_ready(word_views(dict@)),
    ensures
        specialist_outlet_made(r, word_views(dict@), era_of(*culture)),
{
    let era = era_exec(culture);
    let food_type = random_dish_type(dict, culture, &MealProducts::FoodDish);
    let ghost dishes = dish_list(word_views(dict@));
    let ghost d = choose|d: int| 0 <= d < dishes.len() && dishes[d] == food_type@;
    assert(dish_ready(word_views(dict@), dishes[d].text));
    let mut menu: Vec<String> = Vec::new();
    let count = random_below(8);
    assert(str_views(menu@) =~= Seq::<Seq<char>>::empty());
    add_products(dict, culture, &food_type, count, &mut menu);
    let templates = vec![
        framed(
            "{{Adjective(Position, Quality, Age, Colour)}} {{Noun(LastName)}} ",
            &food_type.text,
            " {{Noun(RetailerFoodSpecialist)}}",
        ),
        framed(
            "{{Adjective(Position, Quality, Age, Colour)}} {{Noun(LastName)}}'s ",
            &food_type.text,
            " {{Noun(RetailerFoodSpecialist)}}",
        ),
        framed("{{Noun(LastName)}} ", &food_type.text, " {{Noun(RetailerFoodSpecialist)}}"),
        framed("{{Noun(LastName)}}'s ", &food_type.text, " {{Noun(RetailerFoodSpecialist)}}"),
    ];
    let k = random_below(4);
    let name = render_template_2(templates[k].as_str(), dict, &era);
    let r = Institution {
        id: new_id(),
        name,
        public: false,
        institute_type: InstituteType::SpecialistFoodService,
        size: random_below(PRIVATE_INSTITUTE_BASE_SIZE),
        serves: menu,
        annual_visits: 0,
    };
    proof {
        assert(templates@[k as int]@ == specialist_food_templates(food_type.text@)[k as int]);
        assert(menu_of(word_views(dict@), dishes[d].text, str_views(r.serves@), 7));
        assert(renders(word_views(dict@), era, specialist_food_templates(dishes[d].text)[k as int], r.name@));
    }
    r
}

/// The food a "Serves(..)" tag names: the tag without "Serves(" and ")".
pub open spec fn served_item(tag: Seq<char>) -> Seq<char> {
    replace_all(replace_all(tag, "Serves("@, ""@), ")"@, ""@)
}

/// The foods the tags of a general food outlet's word name: one for each tag
/// that holds "Serves(", in order.
pub open spec fn served(tags: Seq<Seq<char>>) -> Seq<Seq<char>>
    decreases tags.len(),
{
    if tags.len() == 0 {
        Seq::empty()
    } else if contains_seq(tags.last(), "Serves("@) {
        served(tags.drop_last()).push(served_item(tags.last()))
    } else {
        served(tags.drop_last())
    }
}

/// The words a general food outlet is drawn from.
pub open spec fn food_retailers(dict: Seq<WordView>, era: Option<Era>) -> Seq<WordView> {
    tag_selection(dict, WordType::Noun, seq![NounTag::RetailerFood.label()], seq![], seq![], era)
}

/// The dictionary holds a food product named `text`.
pub open spec fn product_listed(dict: Seq<WordView>, text: Seq<char>) -> bool {
    exists|j: int|
        0 <= j < dict.len() && #[trigger] dict[j].tags.contains(NounTag::FoodProduct.label())
            && dict[j].text == text
}

/// The dictionary can stock a general food outlet: it has food outlet words,
/// and every food they serve is a food product of the dictionary that can
/// be made.
pub open spec fn general_outlets_ready(dict: Seq<WordView>, era: Option<Era>) -> bool {
    &&& food_retailers(dict, era).len() > 0
    &&& forall|i: int, j: int|
        0 <= i < food_retailers(dict, era).len() && 0 <= j < served(
            food_retailers(dict, era)[i].tags,
        ).len() ==> {
            let item = #[trigger] served(food_retailers(dict, era)[i].tags)[j];
            product_listed(dict, item) && dish_ready(dict, item)
        }
}

/// `s` is a product of one of the foods `items`.
pub open spec fn product_of_any(dict: Seq<WordView>, items: Seq<Seq<char>>, s: Seq<char>) -> bool {
    exists|j: int| 0 <= j < items.len() && #[trigger] food_product_of(dict, items[j], s)
}

/// A menu of a general food outlet serving `items`: products of those
/// foods, none twice, at most two for each food.
pub open spec fn general_menu(dict: Seq<WordView>, items: Seq<Seq<char>>, menu: Seq<Seq<char>>) -> bool {
    &&& menu.len() <= 2 * items.len()
    &&& menu.no_duplicates()
    &&& forall|i: int| 0 <= i < menu.len() ==> product_of_any(dict, items, #[trigger] menu[i])
}

/// The templates of the first part of a general food outlet's name.
pub open spec fn general_food_templates() -> Seq<Seq<char>> {
    seq![
        "{{Adjective(Position, Quality, Age, Colour)}} {{Noun(LastName)}} "@,
        "{{Adjective(Position, Quality, Age, Colour)}} {{Noun(HistoricalFigure)}}'s "@,
        "{{Noun(LastName)}} "@,
        "{{Noun(LastName)}}'s "@,
        "{{Noun(HistoricalFigure)}}'s "@,
    ]
}

/// `name` is one of the templates rendered, a space, and the outlet's word.
pub open spec fn general_named(dict: Seq<WordView>, era: Option<Era>, word: Seq<char>, name: Seq<char>) -> bool {
    exists|k: int, p: Seq<char>|
        0 <= k < 5 && #[trigger] renders(dict, era, general_food_templates()[k], p) && name == p
            + " "@ + word
}

/// A general food outlet: a food outlet word of the dictionary, a menu of
/// one or two draws of products of each food it serves, and a name.
pub open spec fn general_outlet_made(i: Institution, dict: Seq<WordView>, era: Option<Era>) -> bool {
    &&& i.public == false
    &&& i.institute_type == InstituteType::FoodService
    &&& i.size < PRIVATE_INSTITUTE_BASE_SIZE
    &&& i.annual_visits == 0
    &&& exists|w: int|
        0 <= w < food_retailers(dict, era).len() && general_menu(
            dict,
            served((#[trigger] food_retailers(dict, era)[w]).tags),
            str_views(i.serves@),
        ) && general_named(dict, era, food_retailers(dict, era)[w].text, i.name@)
}

fn served_exec(tags: &Vec<String>) -> (r: Vec<String>)
    ensures
        str_views(r@) == served(str_views(tags@)),
{
    let key = chars_of("Serves(");
    let open = chars_of("Serves(");
    let close = chars_of(")");
    let empty: Vec<char> = Vec::new();
    let mut r: Vec<String> = Vec::new();
    let mut i: usize = 0;
    proof {
        reveal_strlit("Serves(");
        reveal_strlit(")");
        reveal_strlit("");
    }
    assert(str_views(tags@).take(0) =~= Seq::<Seq<char>>::empty());
    while i < tags.len()
        invariant
            i <= tags.len(),
            key@ == "Serves("@,
            open@ == "Serves("@,
            close@ == ")"@,
            open@.len() == 7,
            close@.len() == 1,
            empty@ == ""@,
            str_views(r@) == served(str_views(tags@).take(i as int)),
        decreases tags.len() - i,
    {
        let t = chars_of(tags[i].as_str());
        let ghost prev = str_views(r@);
        assert(str_views(tags@).take(i + 1).drop_last() =~= str_views(tags@).take(i as int));
        assert(str_views(tags@).take(i + 1).last() == t@);
        if contains_exec(&t, &key) {
            let a = replace_chars(&t, &open, &empty);
            let b = replace_chars(&a, &close, &empty);
            r.push(string_of(&b));
            assert(str_views(r@) =~= prev.push(served_item(t@)));
        } else {
            assert(str_views(r@) =~= prev);
        }
        i = i + 1;
    }
    assert(str_views(tags@).take(tags.len() as int) =~= str_views(tags@));
    r
}

/// The first food product of the dictionary named `text`.
fn find_food_product(dict: &Vec<Word>, text: &String) -> (r: Option<usize>)
    ensures
        r matches Some(j) ==> j < dict.len() && dict@[j as int].text@ == text@ && product_listed(
            word_views(dict@),
            text@,
        ),
        r is None ==> !product_listed(word_views(dict@), text@),
{
    let product = NounTag::FoodProduct.to_string();
    let want = chars_of(text.as_str());
    let mut j: usize = 0;
    while j < dict.len()
        invariant
            j <= dict.len(),
            product@ == NounTag::FoodProduct.label(),
            want@ == text@,
            forall|q: int|
                0 <= q < j ==> !(#[trigger] word_views(dict@)[q].tags.contains(
                    NounTag::FoodProduct.label(),
                ) && word_views(dict@)[q].text == text@),
        decreases dict.len() - j,
    {
        let w = &dict[j];
        let here = chars_of(w.text.as_str());
        if contains_string(&w.tags, &product) && eq_chars(&here, &want) {
            assert(word_views(dict@)[j as int] == w@);
            assert(word_views(dict@)[j as int].tags.contains(NounTag::FoodProduct.label()));
            return Some(j);
        }
        j = j + 1;
    }
    None
}

/// A general food outlet (see [`general_outlet_made`]). The dictionary must
/// be able to stock one (see [`general_outlets_ready`]).
pub fn random_general_food_outlet(dict: &Vec<Word>, culture: &Option<CultureConfig>) -> (r:
    Institution)
    requires
        general_outlets_ready(word_views(dict@), era_of(*culture)),
    ensures
        general_outlet_made(r, word_views(dict@), era_of(*culture)),
{
    let era = era_exec(culture);
    let ghost d = word_views(dict@);
    let all_of = vec![NounTag::RetailerFood.to_string()];
    let none: Vec<String> = Vec::new();
    assert(str_views(all_of@) =~= seq![NounTag::RetailerFood.label()]);
    assert(str_views(none@) =~= Seq::<Seq<char>>::empty());
    let picked = random_word_by_tag(dict, WordType::Noun, &all_of, &none, &none, &era);
    let inst_type = picked.unwrap();
    let ghost w = choose|w: int| 0 <= w < food_retailers(d, era).len() && food_retailers(d, era)[w] == inst_type@;
    let items = served_exec(&inst_type.tags);
    let ghost its = str_views(items@);
    assert(its == served(food_retailers(d, era)[w].tags));
    let mut menu: Vec<String> = Vec::new();
    let mut j: usize = 0;
    assert(str_views(menu@) =~= Seq::<Seq<char>>::empty());
    while j < items.len()
        invariant
            j <= items.len(),
            its == str_views(items@),
            d == word_views(dict@),
            forall|q: int| 0 <= q < its.len() ==> product_listed(d, #[trigger] its[q]) && dish_ready(d, its[q]),
            str_views(menu@).no_duplicates(),
            menu.len() <= 2 * j,
            forall|i: int| 0 <= i < menu.len() ==> product_of_any(d, its, #[trigger] str_views(menu@)[i]),
        decreases items.len() - j,
    {
        assert(product_listed(d, its[j as int]));
        let found = find_food_product(dict, &items[j]);
        let base = found.unwrap();
        let c = random_below(3);
        let count: usize = if c < 1 { 1 } else { c };
        let ghost before = str_views(menu@);
        add_products(dict, culture, &dict[base], count, &mut menu);
        proof {
            let now = str_views(menu@);
            assert forall|i: int| 0 <= i < now.len() implies product_of_any(d, its, #[trigger] now[i]) by {
                if i < before.len() {
                    assert(now[i] == now.take(before.len() as int)[i]);
                } else {
                    assert(food_product_of(d, its[j as int], now[i]));
                }
            }
        }
        j = j + 1;
    }
    let templates = vec![
        "{{Adjective(Position, Quality, Age, Colour)}} {{Noun(LastName)}} ",
        "{{Adjective(Position, Quality, Age, Colour)}} {{Noun(HistoricalFigure)}}'s ",
        "{{Noun(LastName)}} ",
        "{{Noun(LastName)}}'s ",
        "{{Noun(HistoricalFigure)}}'s ",
    ];
    let k = random_below(5);
    let first = render_template_2(templates[k], dict, &era);
    let name = framed("", &first, " ");
    let mut name_chars = chars_of(name.as_str());
    push_str(&mut name_chars, inst_type.text.as_str());
    let r = Institution {
        id: new_id(),
        name: string_of(&name_chars),
        public: false,
        institute_type: InstituteType::FoodService,
        size: random_below(PRIVATE_INSTITUTE_BASE_SIZE),
        serves: menu,
        annual_visits: 0,
    };
    proof {
        reveal_strlit("");
        assert(templates@[k as int]@ == general_food_templates()[k as int]);
        assert(r.name@ =~= first@ + " "@ + inst_type.text@);
        assert(renders(d, era, general_food_templates()[k as int], first@));
        assert(general_menu(d, served(food_retailers(d, era)[w].tags), str_views(r.serves@)));
    }
    r
}

/// Whether the dictionary can stock a specialist food outlet (see
/// [`dishes_ready`]).
pub fn dishes_ready_exec(dict: &Vec<Word>) -> (b: bool)
    ensures
        b == dishes_ready(word_views(dict@)),
{
    let tags = vec![NounTag::FoodProduct.to_string(), MealProducts::FoodDish.to_string()];
    assert(str_views(tags@) =~= dish_tags(MealProducts::FoodDish));
    let dishes = filter_words_by_tag_and(dict, WordType::Noun, tags);
    if dishes.len() == 0 {
        return false;
    }
    let ghost ds = word_views(dishes@);
    let mut i: usize = 0;
    while i < dishes.len()
        invariant
            i <= dishes.len(),
            ds == word_views(dishes@),
            ds == tag_and_filter(word_views(dict@), WordType::Noun, dish_tags(MealProducts::FoodDish)),
            forall|q: int| 0 <= q < i ==> dish_ready(word_views(dict@), #[trigger] ds[q].text),
        decreases dishes.len() - i,
    {
        assert(ds[i as int] == dishes@[i as int]@);
        if !dish_ready_exec(dict, &dishes[i].text) {
            assert(!dish_ready(
                word_views(dict@),
                tag_and_filter(word_views(dict@), WordType::Noun, dish_tags(MealProducts::FoodDish))[i as int].text,
            ));
            return false;
        }
        i = i + 1;
    }
    true
}

/// Whether the dictionary can stock a general food outlet (see
/// [`general_outlets_ready`]).
pub fn general_outlets_ready_exec(dict: &Vec<Word>, era: &Option<Era>) -> (b: bool)
    ensures
        b == general_outlets_ready(word_views(dict@), *era),
{
    let all_of = vec![NounTag::RetailerFood.to_string()];
    let none: Vec<String> = Vec::new();
    assert(str_views(all_of@) =~= seq![NounTag::RetailerFood.label()]);
    assert(str_views(none@) =~= Seq::<Seq<char>>::empty());
    let retailers = words_by_tag(dict, WordType::Noun, &all_of, &none, &none, era);
    let ghost rs = word_views(retailers@);
    let ghost d = word_views(dict@);
    if retailers.len() == 0 {
        return false;
    }
    let mut i: usize = 0;
    while i < retailers.len()
        invariant
            i <= retailers.len(),
            rs == word_views(retailers@),
            d == word_views(dict@),
            rs == food_retailers(d, *era),
            forall|p: int, j: int|
                0 <= p < i && 0 <= j < served(rs[p].tags).len() ==> {
                    let item = #[trigger] served(rs[p].tags)[j];
                    product_listed(d, item) && dish_ready(d, item)
                },
        decreases retailers.len() - i,
    {
        assert(rs[i as int] == retailers@[i as int]@);
        let items = served_exec(&retailers[i].tags);
        let mut j: usize = 0;
        while j < items.len()
            invariant
                i < retailers.len(),
                rs == word_views(retailers@),
                d == word_views(dict@),
                rs == food_retailers(d, *era),
                str_views(items@) == served(rs[i as int].tags),
                j <= items.len(),
                forall|q: int|
                    0 <= q < j ==> {
                        let item = #[trigger] served(rs[i as int].tags)[q];
                        product_listed(d, item) && dish_ready(d, item)
                    },
            decreases items.len() - j,
        {
            assert(str_views(items@)[j as int] == items@[j as int]@);
            if find_food_product(dict, &items[j]).is_none() || !dish_ready_exec(dict, &items[j]) {
                return false;
            }
            j = j + 1;
        }
        i = i + 1;
    }
    true
}

} // verus!
