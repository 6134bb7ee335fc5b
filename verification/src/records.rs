//! The records of the catalog: engines, transmissions and the models that
//! carry them.

use crate::pattern::contains;
use crate::text::decimal;
use vstd::prelude::*;

verus! {

/// An engine as its definition file describes it.
#[derive(Debug, PartialEq, Eq)]
pub struct EngineInfo {
    /// The engine's display name.
    pub name: String,
    /// The rated-power class, as written in the file.
    pub cv: String,
    /// The torque, as written in the file.
    pub nm: String,
    /// The identifier of the definition the record was read from.
    pub code: String,
}

/// What an `EngineInfo` holds, as mathematical text.
pub ghost struct EngineInfoView {
    pub name: Seq<char>,
    pub cv: Seq<char>,
    pub nm: Seq<char>,
    pub code: Seq<char>,
}

impl View for EngineInfo {
    type V = EngineInfoView;

    open spec fn view(&self) -> EngineInfoView {
        EngineInfoView { name: self.name@, cv: self.cv@, nm: self.nm@, code: self.code@ }
    }
}

impl DeepView for EngineInfo {
    type V = EngineInfoView;

    open spec fn deep_view(&self) -> EngineInfoView {
        self@
    }
}

impl EngineInfo {
    /// A record is valid when name, rated power and torque are all present.
    pub open spec fn valid(v: EngineInfoView) -> bool {
        v.name.len() > 0 && v.cv.len() > 0 && v.nm.len() > 0
    }
}

impl Clone for EngineInfo {
    fn clone(&self) -> (r: Self)
        ensures
            r == *self,
    {
        EngineInfo {
            name: self.name.clone(),
            cv: self.cv.clone(),
            nm: self.nm.clone(),
            code: self.code.clone(),
        }
    }
}

/// A transmission as its definition file describes it.
#[derive(Debug, PartialEq, Eq)]
pub struct TransmissionData {
    /// The transmission's display name.
    pub name: String,
    /// The number of forward ratios, as a decimal numeral.
    pub speeds: String,
    /// Whether the transmission has a retarder.
    pub retarder: bool,
    /// The first and the last forward ratio, written `first - last`.
    pub ratio: String,
    /// The identifier of the definition the record was read from.
    pub code: String,
}

/// What a `TransmissionData` holds, as mathematical text.
pub ghost struct TransmissionDataView {
    pub name: Seq<char>,
    pub speeds: Seq<char>,
    pub retarder: bool,
    pub ratio: Seq<char>,
    pub code: Seq<char>,
}

impl View for TransmissionData {
    type V = TransmissionDataView;

    open spec fn view(&self) -> TransmissionDataView {
        TransmissionDataView {
            name: self.name@,
            speeds: self.speeds@,
            retarder: self.retarder,
            ratio: self.ratio@,
            code: self.code@,
        }
    }
}

impl DeepView for TransmissionData {
    type V = TransmissionDataView;

    open spec fn deep_view(&self) -> TransmissionDataView {
        self@
    }
}

/// Stands between the two ratios of a ratio range.
pub open spec fn range_separator() -> Seq<char> {
    " - "@
}

impl TransmissionData {
    /// A record is valid when it has a name, its speed count is the numeral
    /// of a number of at least two, and its ratio range holds the separator
    /// between its two ratios.
    pub open spec fn valid(v: TransmissionDataView) -> bool {
        &&& v.name.len() > 0
        &&& exists|n: nat| n >= 2 && v.speeds == #[trigger] decimal(n)
        &&& contains(v.ratio, range_separator())
    }
}

impl Clone for TransmissionData {
    fn clone(&self) -> (r: Self)
        ensures
            r == *self,
    {
        TransmissionData {
            name: self.name.clone(),
            speeds: self.speeds.clone(),
            retarder: self.retarder,
            ratio: self.ratio.clone(),
            code: self.code.clone(),
        }
    }
}

/// One model of a brand, with the engines and transmissions defined for it.
#[derive(Debug, PartialEq, Eq)]
pub struct BrandData {
    /// The brand the model belongs to.
    pub brand: String,
    /// The model's name.
    pub model: String,
    /// The model's engines, in the order their files were listed.
    pub engines: Vec<EngineInfo>,
    /// The model's transmissions, in the order their files were listed.
    pub transmissions: Vec<TransmissionData>,
}

/// What a `BrandData` holds, as mathematical text and sequences.
pub ghost struct BrandDataView {
    pub brand: Seq<char>,
    pub model: Seq<char>,
    pub engines: Seq<EngineInfoView>,
    pub transmissions: Seq<TransmissionDataView>,
}

impl View for BrandData {
    type V = BrandDataView;

    open spec fn view(&self) -> BrandDataView {
        BrandDataView {
            brand: self.brand@,
            model: self.model@,
            engines: self.engines.deep_view(),
            transmissions: self.transmissions.deep_view(),
        }
    }
}

impl DeepView for BrandData {
    type V = BrandDataView;

    open spec fn deep_view(&self) -> BrandDataView {
        self@
    }
}

impl BrandData {
    /// A model entry carries at least one engine and one transmission.
    pub open spec fn complete(v: BrandDataView) -> bool {
        v.engines.len() > 0 && v.transmissions.len() > 0
    }
}

/// A copy of a list of engines.
pub fn clone_engines(list: &Vec<EngineInfo>) -> (r: Vec<EngineInfo>)
    ensures
        r@ == list@,
{
    let mut r: Vec<EngineInfo> = Vec::new();
    let mut i: usize = 0;
    while i < list.len()
        invariant
            i <= list.len(),
            r@ == list@.take(i as int),
        decreases list.len() - i,
    {
        r.push(list[i].clone());
        assert(r@ =~= list@.take(i + 1));
        i += 1;
    }
    assert(list@.take(list.len() as int) =~= list@);
    r
}

/// A copy of a list of transmissions.
pub fn clone_transmissions(list: &Vec<TransmissionData>) -> (r: Vec<TransmissionData>)
    ensures
        r@ == list@,
{
    let mut r: Vec<TransmissionData> = Vec::new();
    let mut i: usize = 0;
    while i < list.len()
        invariant
            i <= list.len(),
            r@ == list@.take(i as int),
        decreases list.len() - i,
    {
        r.push(list[i].clone());
        assert(r@ =~= list@.take(i + 1));
        i += 1;
    }
    assert(list@.take(list.len() as int) =~= list@);
    r
}

impl Clone for BrandData {
    fn clone(&self) -> (r: Self)
        ensures
            r@ == self@,
    {
        BrandData {
            brand: self.brand.clone(),
            model: self.model.clone(),
            engines: clone_engines(&self.engines),
            transmissions: clone_transmissions(&self.transmissions),
        }
    }
}

} // verus!
