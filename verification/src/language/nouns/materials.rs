//! Tags for materials.
use vstd::prelude::*;
use crate::text::str_views;

verus! {

/// The state of matter of a material.
#[derive(PartialEq, Eq, Structural, Debug, Clone, Copy)]
pub enum MaterialState {
    MaterialStateSolid,
    MaterialStateLiquid,
    MaterialStateGas,
}

impl MaterialState {
    /// The name of the value, as data files and templates spell it.
    pub open spec fn label(self) -> Seq<char> {
        match self {
            MaterialState::MaterialStateSolid => "MaterialStateSolid"@,
            MaterialState::MaterialStateLiquid => "MaterialStateLiquid"@,
            MaterialState::MaterialStateGas => "MaterialStateGas"@,
        }
    }

    /// The name of the value, as data files and templates spell it.
    pub fn to_string(&self) -> (s: String)
        ensures
            s@ == self.label(),
    {
        match self {
            MaterialState::MaterialStateSolid => String::from_str("MaterialStateSolid"),
            MaterialState::MaterialStateLiquid => String::from_str("MaterialStateLiquid"),
            MaterialState::MaterialStateGas => String::from_str("MaterialStateGas"),
        }
    }

    /// Every value, in declaration order.
    pub open spec fn all() -> Seq<MaterialState> {
        seq![MaterialState::MaterialStateSolid, MaterialState::MaterialStateLiquid, MaterialState::MaterialStateGas]
    }

    /// The names of all values, in declaration order.
    pub open spec fn labels() -> Seq<Seq<char>> {
        Self::all().map_values(|t: MaterialState| t.label())
    }

    /// Every value, in declaration order.
    pub fn iter() -> (v: Vec<MaterialState>)
        ensures
            v@ == Self::all(),
    {
        let v = vec![MaterialState::MaterialStateSolid, MaterialState::MaterialStateLiquid, MaterialState::MaterialStateGas];
        assert(v@ =~= Self::all());
        v
    }
}

impl Default for MaterialState {
    fn default() -> (r: Self)
        ensures
            r == MaterialState::MaterialStateSolid,
    {
        MaterialState::MaterialStateSolid
    }
}

/// The form a solid material takes.
#[derive(PartialEq, Eq, Structural, Debug, Clone, Copy)]
pub enum SolidMaterialForm {
    SolidMaterialFormSolid,
    SolidMaterialFormCloth,
    SolidMaterialFormThread,
    SolidMaterialFormMail,
    SolidMaterialFormPlate,
    SolidMaterialFormPowder,
}

impl SolidMaterialForm {
    /// The name of the value, as data files and templates spell it.
    pub open spec fn label(self) -> Seq<char> {
        match self {
            SolidMaterialForm::SolidMaterialFormSolid => "SolidMaterialFormSolid"@,
            SolidMaterialForm::SolidMaterialFormCloth => "SolidMaterialFormCloth"@,
            SolidMaterialForm::SolidMaterialFormThread => "SolidMaterialFormThread"@,
            SolidMaterialForm::SolidMaterialFormMail => "SolidMaterialFormMail"@,
            SolidMaterialForm::SolidMaterialFormPlate => "SolidMaterialFormPlate"@,
            SolidMaterialForm::SolidMaterialFormPowder => "SolidMaterialFormPowder"@,
        }
    }

    /// The name of the value, as data files and templates spell it.
    pub fn to_string(&self) -> (s: String)
        ensures
            s@ == self.label(),
    {
        match self {
            SolidMaterialForm::SolidMaterialFormSolid => String::from_str("SolidMaterialFormSolid"),
            SolidMaterialForm::SolidMaterialFormCloth => String::from_str("SolidMaterialFormCloth"),
            SolidMaterialForm::SolidMaterialFormThread => String::from_str("SolidMaterialFormThread"),
            SolidMaterialForm::SolidMaterialFormMail => String::from_str("SolidMaterialFormMail"),
            SolidMaterialForm::SolidMaterialFormPlate => String::from_str("SolidMaterialFormPlate"),
            SolidMaterialForm::SolidMaterialFormPowder => String::from_str("SolidMaterialFormPowder"),
        }
    }

    /// Every value, in declaration order.
    pub open spec fn all() -> Seq<SolidMaterialForm> {
        seq![SolidMaterialForm::SolidMaterialFormSolid, SolidMaterialForm::SolidMaterialFormCloth, SolidMaterialForm::SolidMaterialFormThread, SolidMaterialForm::SolidMaterialFormMail, SolidMaterialForm::SolidMaterialFormPlate, SolidMaterialForm::SolidMaterialFormPowder]
    }

    /// The names of all values, in declaration order.
    pub open spec fn labels() -> Seq<Seq<char>> {
        Self::all().map_values(|t: SolidMaterialForm| t.label())
    }

    /// Every value, in declaration order.
    pub fn iter() -> (v: Vec<SolidMaterialForm>)
        ensures
            v@ == Self::all(),
    {
        let v = vec![SolidMaterialForm::SolidMaterialFormSolid, SolidMaterialForm::SolidMaterialFormCloth, SolidMaterialForm::SolidMaterialFormThread, SolidMaterialForm::SolidMaterialFormMail, SolidMaterialForm::SolidMaterialFormPlate, SolidMaterialForm::SolidMaterialFormPowder];
        assert(v@ =~= Self::all());
        v
    }
}

impl Default for SolidMaterialForm {
    fn default() -> (r: Self)
        ensures
            r == SolidMaterialForm::SolidMaterialFormSolid,
    {
        SolidMaterialForm::SolidMaterialFormSolid
    }
}

/// Further properties of a material.
#[derive(PartialEq, Eq, Structural, Debug, Clone, Copy)]
pub enum MaterialTag {
    MaterialTagFlamable,
    MaterialTagMetal,
    MaterialTagSharpenable,
    MaterialTagNone,
}

impl MaterialTag {
    /// The name of the value, as data files and templates spell it.
    pub open spec fn label(self) -> Seq<char> {
        match self {
            MaterialTag::MaterialTagFlamable => "MaterialTagFlamable"@,
            MaterialTag::MaterialTagMetal => "MaterialTagMetal"@,
            MaterialTag::MaterialTagSharpenable => "MaterialTagSharpenable"@,
            MaterialTag::MaterialTagNone => "MaterialTagNone"@,
        }
    }

    /// The name of the value, as data files and templates spell it.
    pub fn to_string(&self) -> (s: String)
        ensures
            s@ == self.label(),
    {
        match self {
            MaterialTag::MaterialTagFlamable => String::from_str("MaterialTagFlamable"),
            MaterialTag::MaterialTagMetal => String::from_str("MaterialTagMetal"),
            MaterialTag::MaterialTagSharpenable => String::from_str("MaterialTagSharpenable"),
            MaterialTag::MaterialTagNone => String::from_str("MaterialTagNone"),
        }
    }

    /// Every value, in declaration order.
    pub open spec fn all() -> Seq<MaterialTag> {
        seq![MaterialTag::MaterialTagFlamable, MaterialTag::MaterialTagMetal, MaterialTag::MaterialTagSharpenable, MaterialTag::MaterialTagNone]
    }

    /// The names of all values, in declaration order.
    pub open spec fn labels() -> Seq<Seq<char>> {
        Self::all().map_values(|t: MaterialTag| t.label())
    }

    /// Every value, in declaration order.
    pub fn iter() -> (v: Vec<MaterialTag>)
        ensures
            v@ == Self::all(),
    {
        let v = vec![MaterialTag::MaterialTagFlamable, MaterialTag::MaterialTagMetal, MaterialTag::MaterialTagSharpenable, MaterialTag::MaterialTagNone];
        assert(v@ =~= Self::all());
        v
    }
}

impl Default for MaterialTag {
    fn default() -> (r: Self)
        ensures
            r == MaterialTag::MaterialTagNone,
    {
        MaterialTag::MaterialTagNone
    }
}

/// The material tags: `Material`, then every state, form and property.
pub open spec fn spec_material_tags() -> Seq<Seq<char>> {
    seq!["Material"@] + MaterialState::labels() + SolidMaterialForm::labels() + MaterialTag::labels()
}

/// The material tags: `Material`, then every state, form and property.
pub fn material_tags() -> (v: Vec<String>)
    ensures
        str_views(v@) == spec_material_tags(),
{
    let mut output: Vec<String> = Vec::new();
    output.push(String::from_str("Material"));
    assert(str_views(output@) =~= seq!["Material"@]);
    let tags = MaterialState::iter();
    let mut i: usize = 0;
    while i < tags.len()
        invariant
            tags@ == MaterialState::all(),
            i <= tags.len(),
            str_views(output@) == (seq!["Material"@]) + MaterialState::labels().take(i as int),
        decreases tags.len() - i,
    {
        let t = tags[i].to_string();
        let ghost prev = str_views(output@);
        output.push(t);
        assert(str_views(output@) =~= prev.push(MaterialState::labels()[i as int]));
        assert(MaterialState::labels().take(i + 1) =~= MaterialState::labels().take(i as int).push(MaterialState::labels()[i as int]));
        i = i + 1;
        assert(str_views(output@) =~= (seq!["Material"@]) + MaterialState::labels().take(i as int));
    }
    assert(MaterialState::labels().take(tags.len() as int) =~= MaterialState::labels());
    let tags = SolidMaterialForm::iter();
    let mut i: usize = 0;
    while i < tags.len()
        invariant
            tags@ == SolidMaterialForm::all(),
            i <= tags.len(),
            str_views(output@) == (seq!["Material"@] + MaterialState::labels()) + SolidMaterialForm::labels().take(i as int),
        decreases tags.len() - i,
    {
        let t = tags[i].to_string();
        let ghost prev = str_views(output@);
        output.push(t);
        assert(str_views(output@) =~= prev.push(SolidMaterialForm::labels()[i as int]));
        assert(SolidMaterialForm::labels().take(i + 1) =~= SolidMaterialForm::labels().take(i as int).push(SolidMaterialForm::labels()[i as int]));
        i = i + 1;
        assert(str_views(output@) =~= (seq!["Material"@] + MaterialState::labels()) + SolidMaterialForm::labels().take(i as int));
    }
    assert(SolidMaterialForm::labels().take(tags.len() as int) =~= SolidMaterialForm::labels());
    let tags = MaterialTag::iter();
    let mut i: usize = 0;
    while i < tags.len()
        invariant
            tags@ == MaterialTag::all(),
            i <= tags.len(),
            str_views(output@) == (seq!["Material"@] + MaterialState::labels() + SolidMaterialForm::labels()) + MaterialTag::labels().take(i as int),
        decreases tags.len() - i,
    {
        let t = tags[i].to_string();
        let ghost prev = str_views(output@);
        output.push(t);
        assert(str_views(output@) =~= prev.push(MaterialTag::labels()[i as int]));
        assert(MaterialTag::labels().take(i + 1) =~= MaterialTag::labels().take(i as int).push(MaterialTag::labels()[i as int]));
        i = i + 1;
        assert(str_views(output@) =~= (seq!["Material"@] + MaterialState::labels() + SolidMaterialForm::labels()) + MaterialTag::labels().take(i as int));
    }
    assert(MaterialTag::labels().take(tags.len() as int) =~= MaterialTag::labels());
    assert(str_views(output@) =~= spec_material_tags());
    output
}

} // verus!
