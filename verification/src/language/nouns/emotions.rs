//! Tags that group emotions.
use vstd::prelude::*;
use crate::text::str_views;

verus! {

/// The group an emotion belongs to.
#[derive(PartialEq, Eq, Structural, Debug, Clone, Copy)]
pub enum EmotionGroups {
    EmotionGroupLove,
    EmotionGroupJoy,
    EmotionGroupSurprise,
    EmotionGroupAnger,
    EmotionGroupSadness,
    EmotionGroupFear,
    Other,
}

impl EmotionGroups {
    /// The name of the value, as data files and templates spell it.
    pub open spec fn label(self) -> Seq<char> {
        match self {
            EmotionGroups::EmotionGroupLove => "EmotionGroupLove"@,
            EmotionGroups::EmotionGroupJoy => "EmotionGroupJoy"@,
            EmotionGroups::EmotionGroupSurprise => "EmotionGroupSurprise"@,
            EmotionGroups::EmotionGroupAnger => "EmotionGroupAnger"@,
            EmotionGroups::EmotionGroupSadness => "EmotionGroupSadness"@,
            EmotionGroups::EmotionGroupFear => "EmotionGroupFear"@,
            EmotionGroups::Other => "Other"@,
        }
    }

    /// The name of the value, as data files and templates spell it.
    pub fn to_string(&self) -> (s: String)
        ensures
            s@ == self.label(),
    {
        match self {
            EmotionGroups::EmotionGroupLove => String::from_str("EmotionGroupLove"),
            EmotionGroups::EmotionGroupJoy => String::from_str("EmotionGroupJoy"),
            EmotionGroups::EmotionGroupSurprise => String::from_str("EmotionGroupSurprise"),
            EmotionGroups::EmotionGroupAnger => String::from_str("EmotionGroupAnger"),
            EmotionGroups::EmotionGroupSadness => String::from_str("EmotionGroupSadness"),
            EmotionGroups::EmotionGroupFear => String::from_str("EmotionGroupFear"),
            EmotionGroups::Other => String::from_str("Other"),
        }
    }

    /// Every value, in declaration order.
    pub open spec fn all() -> Seq<EmotionGroups> {
        seq![EmotionGroups::EmotionGroupLove, EmotionGroups::EmotionGroupJoy, EmotionGroups::EmotionGroupSurprise, EmotionGroups::EmotionGroupAnger, EmotionGroups::EmotionGroupSadness, EmotionGroups::EmotionGroupFear, EmotionGroups::Other]
    }

    /// The names of all values, in declaration order.
    pub open spec fn labels() -> Seq<Seq<char>> {
        Self::all().map_values(|t: EmotionGroups| t.label())
    }

    /// Every value, in declaration order.
    pub fn iter() -> (v: Vec<EmotionGroups>)
        ensures
            v@ == Self::all(),
    {
        let v = vec![EmotionGroups::EmotionGroupLove, EmotionGroups::EmotionGroupJoy, EmotionGroups::EmotionGroupSurprise, EmotionGroups::EmotionGroupAnger, EmotionGroups::EmotionGroupSadness, EmotionGroups::EmotionGroupFear, EmotionGroups::Other];
        assert(v@ =~= Self::all());
        v
    }
}

impl Default for EmotionGroups {
    fn default() -> (r: Self)
        ensures
            r == EmotionGroups::Other,
    {
        EmotionGroups::Other
    }
}

/// The emotion tags: `Emotion`, then every emotion group.
pub open spec fn spec_emotion_group_tags() -> Seq<Seq<char>> {
    seq!["Emotion"@] + EmotionGroups::labels()
}

/// The emotion tags: `Emotion`, then every emotion group.
pub fn emotion_group_tags() -> (v: Vec<String>)
    ensures
        str_views(v@) == spec_emotion_group_tags(),
{
    let mut output: Vec<String> = Vec::new();
    output.push(String::from_str("Emotion"));
    assert(str_views(output@) =~= seq!["Emotion"@]);
    let tags = EmotionGroups::iter();
    let mut i: usize = 0;
    while i < tags.len()
        invariant
            tags@ == EmotionGroups::all(),
            i <= tags.len(),
            str_views(output@) == (seq!["Emotion"@]) + EmotionGroups::labels().take(i as int),
        decreases tags.len() - i,
    {
        let t = tags[i].to_string();
        let ghost prev = str_views(output@);
        output.push(t);
        assert(str_views(output@) =~= prev.push(EmotionGroups::labels()[i as int]));
        assert(EmotionGroups::labels().take(i + 1) =~= EmotionGroups::labels().take(i as int).push(EmotionGroups::labels()[i as int]));
        i = i + 1;
        assert(str_views(output@) =~= (seq!["Emotion"@]) + EmotionGroups::labels().take(i as int));
    }
    assert(EmotionGroups::labels().take(tags.len() as int) =~= EmotionGroups::labels());
    assert(str_views(output@) =~= spec_emotion_group_tags());
    output
}

} // verus!
