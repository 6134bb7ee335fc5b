//! The catalog: model entries grouped under their brands.

use crate::models::{
    collect_models, lemma_entry_listed, lemma_folder_without_entry, model_of_folder, models_among,
    transmission_list, ModelFolder, ModelFolderView,
};
use crate::records::{BrandData, BrandDataView};
use vstd::prelude::*;

verus! {

/// The models of one brand, in the order in which they were added.
#[derive(Debug, PartialEq, Eq)]
pub struct BrandGroup {
    pub brand: String,
    pub models: Vec<BrandData>,
}

/// What a `BrandGroup` holds, as mathematical text and sequences.
pub ghost struct BrandGroupView {
    pub brand: Seq<char>,
    pub models: Seq<BrandDataView>,
}

impl View for BrandGroup {
    type V = BrandGroupView;

    open spec fn view(&self) -> BrandGroupView {
        BrandGroupView { brand: self.brand@, models: self.models.deep_view() }
    }
}

impl DeepView for BrandGroup {
    type V = BrandGroupView;

    open spec fn deep_view(&self) -> BrandGroupView {
        self@
    }
}

/// The group at position `k` is the group of `brand`.
pub open spec fn group_at(groups: Seq<BrandGroupView>, brand: Seq<char>, k: int) -> bool {
    0 <= k < groups.len() && groups[k].brand == brand
}

/// Some group is the group of `brand`.
pub open spec fn has_group(groups: Seq<BrandGroupView>, brand: Seq<char>) -> bool {
    exists|k: int| group_at(groups, brand, k)
}

/// No two groups are groups of the same brand.
pub open spec fn distinct_brands(groups: Seq<BrandGroupView>) -> bool {
    forall|i: int, j: int|
        #![trigger groups[i], groups[j]]
        0 <= i < j < groups.len() ==> groups[i].brand != groups[j].brand
}

/// The brands of the groups, in the order of the groups.
pub open spec fn brand_keys(groups: Seq<BrandGroupView>) -> Seq<Seq<char>> {
    Seq::new(groups.len(), |k: int| groups[k].brand)
}

/// The mapping that a list of groups stands for: from each brand to the
/// models of its group.
pub open spec fn as_map(groups: Seq<BrandGroupView>) -> Map<Seq<char>, Seq<BrandDataView>> {
    Map::new(
        |brand: Seq<char>| has_group(groups, brand),
        |brand: Seq<char>| groups[choose|k: int| group_at(groups, brand, k)].models,
    )
}

/// The models that a mapping lists under `brand`; none where it has no such
/// key.
pub open spec fn listed(
    catalog: Map<Seq<char>, Seq<BrandDataView>>,
    brand: Seq<char>,
) -> Seq<BrandDataView> {
    if catalog.dom().contains(brand) {
        catalog[brand]
    } else {
        Seq::empty()
    }
}

/// The model at position `i` is of `brand`.
pub open spec fn brand_at(models: Seq<BrandDataView>, brand: Seq<char>, i: int) -> bool {
    0 <= i < models.len() && models[i].brand == brand
}

/// Some model is of `brand`.
pub open spec fn has_brand(models: Seq<BrandDataView>, brand: Seq<char>) -> bool {
    exists|i: int| brand_at(models, brand, i)
}

/// The models of `brand` among `models`, in their order.
pub open spec fn models_of_brand(models: Seq<BrandDataView>, brand: Seq<char>) -> Seq<BrandDataView>
    decreases models.len(),
{
    if models.len() == 0 {
        Seq::empty()
    } else if models.last().brand == brand {
        models_of_brand(models.drop_last(), brand).push(models.last())
    } else {
        models_of_brand(models.drop_last(), brand)
    }
}

/// The brands that occur among `models`, each once, in the order in which
/// they first occur.
pub open spec fn brands_in_order(models: Seq<BrandDataView>) -> Seq<Seq<char>>
    decreases models.len(),
{
    if models.len() == 0 {
        Seq::empty()
    } else if brands_in_order(models.drop_last()).contains(models.last().brand) {
        brands_in_order(models.drop_last())
    } else {
        brands_in_order(models.drop_last()).push(models.last().brand)
    }
}

/// The catalog of a list of models: each brand that occurs is a key, and
/// under it stand the models of that brand, in their order.
pub open spec fn catalog_of(models: Seq<BrandDataView>) -> Map<Seq<char>, Seq<BrandDataView>> {
    Map::new(
        |brand: Seq<char>| has_brand(models, brand),
        |brand: Seq<char>| models_of_brand(models, brand),
    )
}

/// The catalog that a tree of model folders yields; nothing where the root
/// has no folder listing.
pub open spec fn catalog_of_tree(folders: Option<Seq<ModelFolderView>>) -> Option<
    Map<Seq<char>, Seq<BrandDataView>>,
> {
    match folders {
        Some(folders) => Some(catalog_of(models_among(folders))),
        None => None,
    }
}

/// A brand is among the keys exactly when it has a group.
pub proof fn lemma_keys_are_groups(groups: Seq<BrandGroupView>, brand: Seq<char>)
    ensures
        brand_keys(groups).contains(brand) <==> has_group(groups, brand),
{
    let keys = brand_keys(groups);
    if keys.contains(brand) {
        let k = choose|k: int| 0 <= k < keys.len() && keys[k] == brand;
        assert(group_at(groups, brand, k));
    }
    if has_group(groups, brand) {
        let k = choose|k: int| group_at(groups, brand, k);
        assert(keys[k] == brand);
    }
}

/// Under distinct brands, the mapping lists each group's models under the
/// group's brand.
pub proof fn lemma_as_map_at(groups: Seq<BrandGroupView>, k: int)
    requires
        distinct_brands(groups),
        0 <= k < groups.len(),
    ensures
        as_map(groups).dom().contains(groups[k].brand),
        as_map(groups)[groups[k].brand] == groups[k].models,
{
    let brand = groups[k].brand;
    assert(group_at(groups, brand, k));
    let chosen = choose|c: int| group_at(groups, brand, c);
    assert(group_at(groups, brand, chosen));
    if chosen < k {
        assert(groups[chosen].brand != groups[k].brand);
    }
    if k < chosen {
        assert(groups[k].brand != groups[chosen].brand);
    }
}

/// Where no model is of a brand, the models of that brand are none.
pub proof fn lemma_no_models_of_absent_brand(models: Seq<BrandDataView>, brand: Seq<char>)
    requires
        !has_brand(models, brand),
    ensures
        models_of_brand(models, brand) == Seq::<BrandDataView>::empty(),
    decreases models.len(),
{
    if models.len() > 0 {
        assert(!brand_at(models, brand, models.len() - 1));
        assert forall|i: int| !brand_at(models.drop_last(), brand, i) by {
            assert(!brand_at(models, brand, i));
        }
        lemma_no_models_of_absent_brand(models.drop_last(), brand);
    }
}

/// The catalog of a list with one more model: the model is appended to the
/// list of its brand, which is made where the brand is new.
pub proof fn lemma_catalog_grows(models: Seq<BrandDataView>, model: BrandDataView)
    ensures
        catalog_of(models.push(model)) == catalog_of(models).insert(
            model.brand,
            listed(catalog_of(models), model.brand).push(model),
        ),
{
    let more = models.push(model);
    let grown = catalog_of(models).insert(
        model.brand,
        listed(catalog_of(models), model.brand).push(model),
    );
    assert(more.drop_last() =~= models);
    assert(more.last() == model);
    assert forall|brand: Seq<char>| catalog_of(more).dom().contains(brand) == grown.dom().contains(
        brand,
    ) by {
        if has_brand(more, brand) {
            let i = choose|i: int| brand_at(more, brand, i);
            if i < models.len() {
                assert(brand_at(models, brand, i));
            }
        }
        if has_brand(models, brand) {
            let i = choose|i: int| brand_at(models, brand, i);
            assert(brand_at(more, brand, i));
        }
        if brand == model.brand {
            assert(brand_at(more, brand, models.len() as int));
        }
    }
    assert forall|brand: Seq<char>| catalog_of(more).dom().contains(brand) implies catalog_of(
        more,
    )[brand] == grown[brand] by {
        assert(grown.dom().contains(brand));
        if brand == model.brand {
            assert(models_of_brand(more, brand) == models_of_brand(models, brand).push(model));
            if !has_brand(models, brand) {
                lemma_no_models_of_absent_brand(models, brand);
            }
        } else {
            assert(models_of_brand(more, brand) == models_of_brand(models, brand));
            assert(catalog_of(models).dom().contains(brand));
        }
    }
    assert(catalog_of(more) =~= grown);
}

/// `earlier` stands before `later` in `list`.
pub open spec fn in_order(list: Seq<BrandDataView>, earlier: BrandDataView, later: BrandDataView) -> bool {
    exists|p: int, q: int|
        #![trigger list[p], list[q]]
        0 <= p < q < list.len() && list[p] == earlier && list[q] == later
}

/// Each model stands among the models of its brand, after as many of them as
/// come before it in the list.
pub proof fn lemma_model_listed(models: Seq<BrandDataView>, i: int)
    requires
        0 <= i < models.len(),
    ensures
        models_of_brand(models.take(i), models[i].brand).len() < models_of_brand(
            models,
            models[i].brand,
        ).len(),
        models_of_brand(models, models[i].brand)[models_of_brand(
            models.take(i),
            models[i].brand,
        ).len() as int] == models[i],
    decreases models.len(),
{
    if i == models.len() - 1 {
        assert(models.take(i) =~= models.drop_last());
    } else {
        lemma_model_listed(models.drop_last(), i);
        assert(models.drop_last().take(i) =~= models.take(i));
        assert(models.drop_last()[i] == models[i]);
    }
}

/// Two models of one brand both stand under that brand's key, in the order in
/// which the list has them.
pub proof fn lemma_shared_brand_shares_key(models: Seq<BrandDataView>, i: int, j: int)
    requires
        0 <= i < j < models.len(),
        models[i].brand == models[j].brand,
    ensures
        catalog_of(models).dom().contains(models[i].brand),
        in_order(catalog_of(models)[models[i].brand], models[i], models[j]),
{
    let brand = models[i].brand;
    let list = models_of_brand(models, brand);
    assert(brand_at(models, brand, i));
    lemma_model_listed(models, i);
    lemma_model_listed(models, j);
    lemma_model_listed(models.take(j), i);
    assert(models.take(j).take(i) =~= models.take(i));
    let p = models_of_brand(models.take(i), brand).len() as int;
    let q = models_of_brand(models.take(j), brand).len() as int;
    assert(list[p] == models[i] && list[q] == models[j]);
}

/// Two model folders of one brand, each with an entry: both entries stand
/// under that brand's key, in the order of the folders.
pub proof fn lemma_folders_share_key(folders: Seq<ModelFolderView>, i: int, j: int)
    requires
        0 <= i < j < folders.len(),
        model_of_folder(folders[i]) is Some,
        model_of_folder(folders[j]) is Some,
        model_of_folder(folders[i])->0.brand == model_of_folder(folders[j])->0.brand,
    ensures
        catalog_of_tree(Some(folders)) matches Some(catalog) && catalog.dom().contains(
            model_of_folder(folders[i])->0.brand,
        ) && in_order(
            catalog[model_of_folder(folders[i])->0.brand],
            model_of_folder(folders[i])->0,
            model_of_folder(folders[j])->0,
        ),
{
    let models = models_among(folders);
    lemma_entry_listed(folders, i);
    lemma_entry_listed(folders, j);
    lemma_entry_listed(folders.take(j), i);
    assert(folders.take(j).take(i) =~= folders.take(i));
    let p = models_among(folders.take(i)).len() as int;
    let q = models_among(folders.take(j)).len() as int;
    lemma_shared_brand_shares_key(models, p, q);
}

/// A model folder with engines but without a transmission list leaves the
/// catalog as it is without that folder.
pub proof fn lemma_incomplete_folder_leaves_catalog(folders: Seq<ModelFolderView>, k: int)
    requires
        0 <= k < folders.len(),
        transmission_list(folders[k].transmissions, folders[k].folder.folder_name) is None,
    ensures
        catalog_of_tree(Some(folders)) == catalog_of_tree(Some(folders.remove(k))),
{
    lemma_folder_without_entry(folders, k);
}

/// Model entries grouped under their brands. Each brand has one group.
#[derive(Debug, PartialEq, Eq)]
pub struct Catalog {
    pub groups: Vec<BrandGroup>,
}

impl View for Catalog {
    type V = Map<Seq<char>, Seq<BrandDataView>>;

    open spec fn view(&self) -> Map<Seq<char>, Seq<BrandDataView>> {
        as_map(self.groups.deep_view())
    }
}

impl Catalog {
    /// No brand has two groups.
    pub open spec fn wf(&self) -> bool {
        distinct_brands(self.groups.deep_view())
    }

    /// The brands of the catalog, in the order of their groups.
    pub open spec fn keys(&self) -> Seq<Seq<char>> {
        brand_keys(self.groups.deep_view())
    }

    /// A catalog without brands.
    pub fn new() -> (c: Self)
        ensures
            c.wf(),
            c@ == Map::<Seq<char>, Seq<BrandDataView>>::empty(),
            c.keys() == Seq::<Seq<char>>::empty(),
    {
        let c = Catalog { groups: Vec::new() };
        assert(c.groups.deep_view() =~= Seq::<BrandGroupView>::empty());
        assert(c.keys() =~= Seq::<Seq<char>>::empty());
        assert(c@ =~= Map::<Seq<char>, Seq<BrandDataView>>::empty()) by {
            assert forall|brand: Seq<char>| !has_group(c.groups.deep_view(), brand) by {
                assert forall|k: int| !group_at(c.groups.deep_view(), brand, k) by {}
            }
        }
        c
    }

    /// Finds the position of the group of `brand`.
    pub fn find_group(&self, brand: &String) -> (r: Option<usize>)
        ensures
            match r {
                Some(k) => group_at(self.groups.deep_view(), brand@, k as int) && forall|j: int|
                    0 <= j < k ==> !group_at(self.groups.deep_view(), brand@, j),
                None => !has_group(self.groups.deep_view(), brand@),
            },
    {
        let mut k: usize = 0;
        while k < self.groups.len()
            invariant
                k <= self.groups.len(),
                forall|j: int| 0 <= j < k ==> !group_at(self.groups.deep_view(), brand@, j),
            decreases self.groups.len() - k,
        {
            if self.groups[k].brand == *brand {
                return Some(k);
            }
            k += 1;
        }
        None
    }

    /// Looks up the models listed under `brand`.
    pub fn get(&self, brand: &String) -> (r: Option<&Vec<BrandData>>)
        requires
            self.wf(),
        ensures
            match r {
                Some(models) => self@.dom().contains(brand@) && models.deep_view() == self@[brand@],
                None => !self@.dom().contains(brand@),
            },
    {
        match self.find_group(brand) {
            Some(k) => {
                proof {
                    lemma_as_map_at(self.groups.deep_view(), k as int);
                }
                Some(&self.groups[k].models)
            },
            None => None,
        }
    }

    /// Adds a model: to the end of its brand's group, or as the first of a new
    /// group where the brand has none.
    pub fn add(&mut self, model: BrandData)
        requires
            old(self).wf(),
        ensures
            final(self).wf(),
            final(self)@ == old(self)@.insert(
                model.brand@,
                listed(old(self)@, model.brand@).push(model@),
            ),
            final(self).keys() == if old(self).keys().contains(model.brand@) {
                old(self).keys()
            } else {
                old(self).keys().push(model.brand@)
            },
    {
        let ghost before = self.groups.deep_view();
        let ghost brand = model.brand@;
        let ghost added = model@;
        proof {
            lemma_keys_are_groups(before, brand);
        }
        match self.find_group(&model.brand) {
            Some(k) => {
                let mut group = self.groups.remove(k);
                group.models.push(model);
                let ghost changed = group@;
                self.groups.insert(k, group);
                proof {
                    let after = self.groups.deep_view();
                    assert(changed.models =~= before[k as int].models.push(added));
                    assert(after =~= before.update(k as int, changed));
                    assert(brand_keys(after) =~= brand_keys(before));
                    assert forall|i: int, j: int| 0 <= i < j < after.len() implies after[i].brand
                        != after[j].brand by {
                        assert(before[i].brand != before[j].brand);
                    }
                    lemma_as_map_at(before, k as int);
                    lemma_as_map_at(after, k as int);
                    let target = as_map(before).insert(brand, listed(as_map(before), brand).push(added));
                    assert forall|b: Seq<char>| as_map(after).dom().contains(b)
                        == target.dom().contains(b) by {
                        if has_group(after, b) {
                            let c = choose|c: int| group_at(after, b, c);
                            assert(group_at(before, b, c));
                        }
                        if has_group(before, b) {
                            let c = choose|c: int| group_at(before, b, c);
                            assert(group_at(after, b, c));
                        }
                    }
                    assert forall|b: Seq<char>| as_map(after).dom().contains(b) implies as_map(
                        after,
                    )[b] == target[b] by {
                        if b != brand {
                            let c = choose|c: int| group_at(after, b, c);
                            lemma_as_map_at(after, c);
                            lemma_as_map_at(before, c);
                        }
                    }
                    assert(as_map(after) =~= target);
                }
            },
            None => {
                let mut models: Vec<BrandData> = Vec::new();
                let name = model.brand.clone();
                models.push(model);
                let group = BrandGroup { brand: name, models };
                let ghost made = group@;
                self.groups.push(group);
                proof {
                    let after = self.groups.deep_view();
                    assert(made.models =~= Seq::<BrandDataView>::empty().push(added));
                    assert(after =~= before.push(made));
                    assert(brand_keys(after) =~= brand_keys(before).push(brand));
                    assert forall|i: int, j: int| 0 <= i < j < after.len() implies after[i].brand
                        != after[j].brand by {
                        if j < before.len() {
                            assert(before[i].brand != before[j].brand);
                        } else {
                            assert(!group_at(before, brand, i));
                        }
                    }
                    lemma_as_map_at(after, before.len() as int);
                    let target = as_map(before).insert(brand, listed(as_map(before), brand).push(added));
                    assert forall|b: Seq<char>| as_map(after).dom().contains(b)
                        == target.dom().contains(b) by {
                        if has_group(after, b) {
                            let c = choose|c: int| group_at(after, b, c);
                            if c < before.len() {
                                assert(group_at(before, b, c));
                            }
                        }
                        if has_group(before, b) {
                            let c = choose|c: int| group_at(before, b, c);
                            assert(group_at(after, b, c));
                        }
                        if b == brand {
                            assert(group_at(after, b, before.len() as int));
                        }
                    }
                    assert forall|b: Seq<char>| as_map(after).dom().contains(b) implies as_map(
                        after,
                    )[b] == target[b] by {
                        if b != brand {
                            let c = choose|c: int| group_at(after, b, c);
                            lemma_as_map_at(after, c);
                            lemma_as_map_at(before, c);
                        }
                    }
                    assert(as_map(after) =~= target);
                }
            },
        }
    }
}

/// Groups the models under their brands: every brand that occurs becomes a
/// key, and the models of a brand keep their order.
pub fn group_by_brand(models: &Vec<BrandData>) -> (c: Catalog)
    ensures
        c.wf(),
        c@ == catalog_of(models.deep_view()),
        c.keys() == brands_in_order(models.deep_view()),
        forall|k: int|
            0 <= k < c.groups.len() ==> (#[trigger] c.groups[k])@.models == models_of_brand(
                models.deep_view(),
                c.groups[k].brand@,
            ),
{
    let mut catalog = Catalog::new();
    let mut i: usize = 0;
    assert(models.deep_view().take(0) =~= Seq::<BrandDataView>::empty());
    assert(catalog@ =~= catalog_of(Seq::<BrandDataView>::empty())) by {
        assert forall|brand: Seq<char>| !has_brand(Seq::<BrandDataView>::empty(), brand) by {
            assert forall|j: int| !brand_at(Seq::<BrandDataView>::empty(), brand, j) by {}
        }
    }
    while i < models.len()
        invariant
            i <= models.len(),
            catalog.wf(),
            catalog@ == catalog_of(models.deep_view().take(i as int)),
            catalog.keys() == brands_in_order(models.deep_view().take(i as int)),
        decreases models.len() - i,
    {
        proof {
            lemma_catalog_grows(models.deep_view().take(i as int), models@[i as int]@);
            assert(models.deep_view().take(i as int).push(models@[i as int]@)
                =~= models.deep_view().take(i + 1));
            assert(models.deep_view().take(i + 1).drop_last() =~= models.deep_view().take(
                i as int,
            ));
        }
        catalog.add(models[i].clone());
        i += 1;
    }
    assert(models.deep_view().take(models.len() as int) =~= models.deep_view());
    assert forall|k: int| 0 <= k < catalog.groups.len() implies (#[trigger] catalog.groups[k])@.models
        == models_of_brand(models.deep_view(), catalog.groups[k].brand@) by {
        lemma_as_map_at(catalog.groups.deep_view(), k);
    }
    catalog
}

/// Builds the catalog of a tree of model folders; `None` where the root has
/// no folder listing.
pub fn build_catalog(folders: &Option<Vec<ModelFolder>>) -> (r: Option<Catalog>)
    ensures
        match r {
            Some(c) => c.wf() && catalog_of_tree(folders.deep_view()) == Some(c@) && c.keys()
                == brands_in_order(models_among(folders.deep_view()->0)),
            None => catalog_of_tree(folders.deep_view()) is None,
        },
{
    match folders {
        Some(folders) => {
            let models = collect_models(folders);
            Some(group_by_brand(&models))
        },
        None => None,
    }
}

} // verus!
