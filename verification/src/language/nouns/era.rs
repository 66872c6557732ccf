//! Era tags.
use vstd::prelude::*;
use crate::language::Era;
use crate::text::str_views;

verus! {

/// The era tags: every era.
pub open spec fn spec_era_tags() -> Seq<Seq<char>> {
    Era::labels()
}

/// The era tags: every era.
pub fn era_tags() -> (v: Vec<String>)
    ensures
        str_views(v@) == spec_era_tags(),
{
    let mut output: Vec<String> = Vec::new();
    let tags = Era::iter();
    let mut i: usize = 0;
    while i < tags.len()
        invariant
            tags@ == Era::all(),
            i <= tags.len(),
            str_views(output@) == (Seq::<Seq<char>>::empty()) + Era::labels().take(i as int),
        decreases tags.len() - i,
    {
        let t = tags[i].to_string();
        let ghost prev = str_views(output@);
        output.push(t);
        assert(str_views(output@) =~= prev.push(Era::labels()[i as int]));
        assert(Era::labels().take(i + 1) =~= Era::labels().take(i as int).push(Era::labels()[i as int]));
        i = i + 1;
        assert(str_views(output@) =~= (Seq::<Seq<char>>::empty()) + Era::labels().take(i as int));
    }
    assert(Era::labels().take(tags.len() as int) =~= Era::labels());
    assert(str_views(output@) =~= spec_era_tags());
    output
}

} // verus!
