//! Tags for geographic features.
use vstd::prelude::*;
use crate::text::str_views;

verus! {

/// How large a geographic feature is.
#[derive(PartialEq, Eq, Structural, Debug, Clone, Copy)]
pub enum GeographyFeatureSize {
    GeographyFeatureSizeBiome,
    GeographyFeatureSizeAreaFeature,
    GeographyFeatureSizeLocalFeature,
}

impl GeographyFeatureSize {
    /// The name of the value, as data files and templates spell it.
    pub open spec fn label(self) -> Seq<char> {
        match self {
            GeographyFeatureSize::GeographyFeatureSizeBiome => "GeographyFeatureSizeBiome"@,
            GeographyFeatureSize::GeographyFeatureSizeAreaFeature => "GeographyFeatureSizeAreaFeature"@,
            GeographyFeatureSize::GeographyFeatureSizeLocalFeature => "GeographyFeatureSizeLocalFeature"@,
        }
    }

    /// The name of the value, as data files and templates spell it.
    pub fn to_string(&self) -> (s: String)
        ensures
            s@ == self.label(),
    {
        match self {
            GeographyFeatureSize::GeographyFeatureSizeBiome => String::from_str("GeographyFeatureSizeBiome"),
            GeographyFeatureSize::GeographyFeatureSizeAreaFeature => String::from_str("GeographyFeatureSizeAreaFeature"),
            GeographyFeatureSize::GeographyFeatureSizeLocalFeature => String::from_str("GeographyFeatureSizeLocalFeature"),
        }
    }

    /// Every value, in declaration order.
    pub open spec fn all() -> Seq<GeographyFeatureSize> {
        seq![GeographyFeatureSize::GeographyFeatureSizeBiome, GeographyFeatureSize::GeographyFeatureSizeAreaFeature, GeographyFeatureSize::GeographyFeatureSizeLocalFeature]
    }

    /// The names of all values, in declaration order.
    pub open spec fn labels() -> Seq<Seq<char>> {
        Self::all().map_values(|t: GeographyFeatureSize| t.label())
    }

    /// Every value, in declaration order.
    pub fn iter() -> (v: Vec<GeographyFeatureSize>)
        ensures
            v@ == Self::all(),
    {
        let v = vec![GeographyFeatureSize::GeographyFeatureSizeBiome, GeographyFeatureSize::GeographyFeatureSizeAreaFeature, GeographyFeatureSize::GeographyFeatureSizeLocalFeature];
        assert(v@ =~= Self::all());
        v
    }
}

impl Default for GeographyFeatureSize {
    fn default() -> (r: Self)
        ensures
            r == GeographyFeatureSize::GeographyFeatureSizeLocalFeature,
    {
        GeographyFeatureSize::GeographyFeatureSizeLocalFeature
    }
}

/// The geography tags: `GeographicFeature`, then every feature size.
pub open spec fn spec_geography_tags() -> Seq<Seq<char>> {
    seq!["GeographicFeature"@] + GeographyFeatureSize::labels()
}

/// The geography tags: `GeographicFeature`, then every feature size.
pub fn geography_tags() -> (v: Vec<String>)
    ensures
        str_views(v@) == spec_geography_tags(),
{
    let mut output: Vec<String> = Vec::new();
    output.push(String::from_str("GeographicFeature"));
    assert(str_views(output@) =~= seq!["GeographicFeature"@]);
    let tags = GeographyFeatureSize::iter();
    let mut i: usize = 0;
    while i < tags.len()
        invariant
            tags@ == GeographyFeatureSize::all(),
            i <= tags.len(),
            str_views(output@) == (seq!["GeographicFeature"@]) + GeographyFeatureSize::labels().take(i as int),
        decreases tags.len() - i,
    {
        let t = tags[i].to_string();
        let ghost prev = str_views(output@);
        output.push(t);
        assert(str_views(output@) =~= prev.push(GeographyFeatureSize::labels()[i as int]));
        assert(GeographyFeatureSize::labels().take(i + 1) =~= GeographyFeatureSize::labels().take(i as int).push(GeographyFeatureSize::labels()[i as int]));
        i = i + 1;
        assert(str_views(output@) =~= (seq!["GeographicFeature"@]) + GeographyFeatureSize::labels().take(i as int));
    }
    assert(GeographyFeatureSize::labels().take(tags.len() as int) =~= GeographyFeatureSize::labels());
    assert(str_views(output@) =~= spec_geography_tags());
    output
}

} // verus!
