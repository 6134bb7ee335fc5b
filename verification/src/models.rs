//! From the loaded files of a model folder to the model's entry: the engine
//! and transmission lists, and the rule that a model needs both.

use crate::engine::{engine_of_text, read_engine_file};
use crate::fields::{brand_of, get_brand, get_model, model_of};
use crate::lines::{lemma_unterminated, lf};
use crate::listing::{FileData, FileDataView, FolderData, FolderDataView};
use crate::pattern::contains;
use crate::records::{
    BrandData, BrandDataView, EngineInfo, EngineInfoView, TransmissionData, TransmissionDataView,
};
use crate::transmission::{read_transmission_file, transmission_of_text};
use vstd::prelude::*;

verus! {

/// A definition file together with its text; no text where the file could
/// not be read.
#[derive(Debug, PartialEq, Eq)]
pub struct LoadedFile {
    pub file: FileData,
    pub text: Option<String>,
}

/// What a `LoadedFile` holds, as mathematical text.
pub ghost struct LoadedFileView {
    pub file: FileDataView,
    pub text: Option<Seq<char>>,
}

impl View for LoadedFile {
    type V = LoadedFileView;

    open spec fn view(&self) -> LoadedFileView {
        LoadedFileView { file: self.file@, text: self.text.deep_view() }
    }
}

impl DeepView for LoadedFile {
    type V = LoadedFileView;

    open spec fn deep_view(&self) -> LoadedFileView {
        self@
    }
}

/// A model folder with the file listings of its `engine` and `transmission`
/// subfolders, each file loaded; no listing where the subfolder is missing,
/// unreadable or without definition files.
#[derive(Debug, PartialEq, Eq)]
pub struct ModelFolder {
    pub folder: FolderData,
    pub engines: Option<Vec<LoadedFile>>,
    pub transmissions: Option<Vec<LoadedFile>>,
}

/// What a `ModelFolder` holds, as mathematical text and sequences.
pub ghost struct ModelFolderView {
    pub folder: FolderDataView,
    pub engines: Option<Seq<LoadedFileView>>,
    pub transmissions: Option<Seq<LoadedFileView>>,
}

impl View for ModelFolder {
    type V = ModelFolderView;

    open spec fn view(&self) -> ModelFolderView {
        ModelFolderView {
            folder: self.folder@,
            engines: self.engines.deep_view(),
            transmissions: self.transmissions.deep_view(),
        }
    }
}

impl DeepView for ModelFolder {
    type V = ModelFolderView;

    open spec fn deep_view(&self) -> ModelFolderView {
        self@
    }
}

/// The engine records that the files define, in the order of the files.
pub open spec fn engines_among(files: Seq<LoadedFileView>, folder: Seq<char>) -> Seq<EngineInfoView>
    decreases files.len(),
{
    if files.len() == 0 {
        Seq::empty()
    } else {
        match engine_of_text(files.last().text, folder, files.last().file.file_name) {
            Some(engine) => engines_among(files.drop_last(), folder).push(engine),
            None => engines_among(files.drop_last(), folder),
        }
    }
}

/// The transmission records that the files define, in the order of the files.
pub open spec fn transmissions_among(files: Seq<LoadedFileView>, folder: Seq<char>) -> Seq<
    TransmissionDataView,
>
    decreases files.len(),
{
    if files.len() == 0 {
        Seq::empty()
    } else {
        match transmission_of_text(files.last().text, folder, files.last().file.file_name) {
            Some(transmission) => transmissions_among(files.drop_last(), folder).push(transmission),
            None => transmissions_among(files.drop_last(), folder),
        }
    }
}

/// The engine list of a model folder: the records of its engine files, where
/// there is a file listing and at least one file yields a record.
pub open spec fn engine_list(files: Option<Seq<LoadedFileView>>, folder: Seq<char>) -> Option<
    Seq<EngineInfoView>,
> {
    match files {
        Some(files) => {
            if engines_among(files, folder).len() > 0 {
                Some(engines_among(files, folder))
            } else {
                None
            }
        },
        None => None,
    }
}

/// The transmission list of a model folder: the records of its transmission
/// files, where there is a file listing and at least one file yields a
/// record.
pub open spec fn transmission_list(files: Option<Seq<LoadedFileView>>, folder: Seq<char>) -> Option<
    Seq<TransmissionDataView>,
> {
    match files {
        Some(files) => {
            if transmissions_among(files, folder).len() > 0 {
                Some(transmissions_among(files, folder))
            } else {
                None
            }
        },
        None => None,
    }
}

/// The entry of a model folder: present exactly when the folder has an
/// engine list and a transmission list and its name gives brand and model.
pub open spec fn model_of_folder(f: ModelFolderView) -> Option<BrandDataView> {
    match (
        engine_list(f.engines, f.folder.folder_name),
        transmission_list(f.transmissions, f.folder.folder_name),
        brand_of(f.folder.folder_name),
        model_of(f.folder.folder_name),
    ) {
        (Some(engines), Some(transmissions), Some(brand), Some(model)) => Some(
            BrandDataView { brand, model, engines, transmissions },
        ),
        _ => None,
    }
}

/// The entries of the model folders, in the order of the folders; a folder
/// without an entry is passed over.
pub open spec fn models_among(folders: Seq<ModelFolderView>) -> Seq<BrandDataView>
    decreases folders.len(),
{
    if folders.len() == 0 {
        Seq::empty()
    } else {
        match model_of_folder(folders.last()) {
            Some(model) => models_among(folders.drop_last()).push(model),
            None => models_among(folders.drop_last()),
        }
    }
}

/// A text without a line feed defines what an unreadable file defines:
/// nothing.
pub proof fn lemma_unterminated_text_defines_nothing(
    text: Seq<char>,
    folder: Seq<char>,
    file: Seq<char>,
)
    requires
        !contains(text, lf()),
    ensures
        engine_of_text(Some(text), folder, file) == engine_of_text(None, folder, file),
        transmission_of_text(Some(text), folder, file) == transmission_of_text(None, folder, file),
        engine_of_text(Some(text), folder, file) is None,
        transmission_of_text(Some(text), folder, file) is None,
{
    lemma_unterminated(text);
}

/// A model folder whose `transmission` subfolder is missing or holds no
/// definition file has no entry, whatever its engines.
pub proof fn lemma_no_transmissions_no_entry(f: ModelFolderView)
    requires
        f.transmissions matches Some(files) ==> files.len() == 0,
    ensures
        model_of_folder(f) is None,
{
}

/// A model folder without an entry adds nothing to the entries: the entries
/// are those of the other folders.
pub proof fn lemma_folder_without_entry(folders: Seq<ModelFolderView>, k: int)
    requires
        0 <= k < folders.len(),
        model_of_folder(folders[k]) is None,
    ensures
        models_among(folders) == models_among(folders.remove(k)),
    decreases folders.len(),
{
    if k == folders.len() - 1 {
        assert(folders.remove(k) =~= folders.drop_last());
    } else {
        let others = folders.remove(k);
        assert(others.last() == folders.last());
        assert(others.drop_last() =~= folders.drop_last().remove(k));
        lemma_folder_without_entry(folders.drop_last(), k);
    }
}

/// The entry of a model folder stands among the entries, after the entries
/// of the folders before it.
pub proof fn lemma_entry_listed(folders: Seq<ModelFolderView>, i: int)
    requires
        0 <= i < folders.len(),
        model_of_folder(folders[i]) is Some,
    ensures
        models_among(folders.take(i)).len() < models_among(folders).len(),
        models_among(folders)[models_among(folders.take(i)).len() as int] == model_of_folder(
            folders[i],
        )->0,
    decreases folders.len(),
{
    if i == folders.len() - 1 {
        assert(folders.take(i) =~= folders.drop_last());
    } else {
        lemma_entry_listed(folders.drop_last(), i);
        assert(folders.drop_last().take(i) =~= folders.take(i));
        assert(folders.drop_last()[i] == folders[i]);
    }
}

/// Builds the engine list of a model folder from the loaded files of its
/// `engine` subfolder.
pub fn list_engine_data(files: &Option<Vec<LoadedFile>>, folder_name: &String) -> (r: Option<
    Vec<EngineInfo>,
>)
    ensures
        r.deep_view() == engine_list(files.deep_view(), folder_name@),
        r matches Some(list) ==> list.len() > 0,
{
    let files = match files {
        Some(files) => files,
        None => {
            return None;
        },
    };
    let mut data: Vec<EngineInfo> = Vec::new();
    let mut i: usize = 0;
    assert(files.deep_view().take(0) =~= Seq::<LoadedFileView>::empty());
    assert(data.deep_view() =~= Seq::<EngineInfoView>::empty());
    while i < files.len()
        invariant
            i <= files.len(),
            data.deep_view() == engines_among(files.deep_view().take(i as int), folder_name@),
        decreases files.len() - i,
    {
        proof {
            let now = files.deep_view().take(i + 1);
            assert(now.drop_last() =~= files.deep_view().take(i as int));
            assert(now.last() == files@[i as int]@);
        }
        let loaded = &files[i];
        i += 1;
        match read_engine_file(&loaded.text, folder_name, &loaded.file.file_name) {
            Some(engine) => {
                let ghost before = data.deep_view();
                let ghost added = engine@;
                data.push(engine);
                assert(data.deep_view() =~= before.push(added));
            },
            None => {},
        }
    }
    assert(files.deep_view().take(files.len() as int) =~= files.deep_view());
    if data.len() == 0 {
        return None;
    }
    Some(data)
}

/// Builds the transmission list of a model folder from the loaded files of
/// its `transmission` subfolder.
pub fn list_transmission_data(files: &Option<Vec<LoadedFile>>, folder_name: &String) -> (r: Option<
    Vec<TransmissionData>,
>)
    ensures
        r.deep_view() == transmission_list(files.deep_view(), folder_name@),
        r matches Some(list) ==> list.len() > 0,
{
    let files = match files {
        Some(files) => files,
        None => {
            return None;
        },
    };
    let mut data: Vec<TransmissionData> = Vec::new();
    let mut i: usize = 0;
    assert(files.deep_view().take(0) =~= Seq::<LoadedFileView>::empty());
    assert(data.deep_view() =~= Seq::<TransmissionDataView>::empty());
    while i < files.len()
        invariant
            i <= files.len(),
            data.deep_view() == transmissions_among(files.deep_view().take(i as int), folder_name@),
        decreases files.len() - i,
    {
        proof {
            let now = files.deep_view().take(i + 1);
            assert(now.drop_last() =~= files.deep_view().take(i as int));
            assert(now.last() == files@[i as int]@);
        }
        let loaded = &files[i];
        i += 1;
        match read_transmission_file(&loaded.text, folder_name, &loaded.file.file_name) {
            Some(transmission) => {
                let ghost before = data.deep_view();
                let ghost added = transmission@;
                data.push(transmission);
                assert(data.deep_view() =~= before.push(added));
            },
            None => {},
        }
    }
    assert(files.deep_view().take(files.len() as int) =~= files.deep_view());
    if data.len() == 0 {
        return None;
    }
    Some(data)
}

/// Builds the entry of a model folder.
pub fn model_entry(folder: &ModelFolder) -> (r: Option<BrandData>)
    ensures
        r.deep_view() == model_of_folder(folder@),
        r matches Some(entry) ==> BrandData::complete(entry@),
{
    let folder_name = &folder.folder.folder_name;
    let engines = match list_engine_data(&folder.engines, folder_name) {
        Some(engines) => engines,
        None => {
            return None;
        },
    };
    let transmissions = match list_transmission_data(&folder.transmissions, folder_name) {
        Some(transmissions) => transmissions,
        None => {
            return None;
        },
    };
    let brand = match get_brand(folder_name) {
        Some(brand) => brand,
        None => {
            return None;
        },
    };
    let model = match get_model(folder_name) {
        Some(model) => model,
        None => {
            return None;
        },
    };
    Some(BrandData { brand, model, engines, transmissions })
}

/// Builds the entries of the model folders, in the order of the folders.
pub fn collect_models(folders: &Vec<ModelFolder>) -> (r: Vec<BrandData>)
    ensures
        r.deep_view() == models_among(folders.deep_view()),
{
    let mut models: Vec<BrandData> = Vec::new();
    let mut i: usize = 0;
    assert(folders.deep_view().take(0) =~= Seq::<ModelFolderView>::empty());
    assert(models.deep_view() =~= Seq::<BrandDataView>::empty());
    while i < folders.len()
        invariant
            i <= folders.len(),
            models.deep_view() == models_among(folders.deep_view().take(i as int)),
        decreases folders.len() - i,
    {
        proof {
            let now = folders.deep_view().take(i + 1);
            assert(now.drop_last() =~= folders.deep_view().take(i as int));
            assert(now.last() == folders@[i as int]@);
        }
        match model_entry(&folders[i]) {
            Some(model) => {
                let ghost before = models.deep_view();
                let ghost added = model@;
                models.push(model);
                assert(models.deep_view() =~= before.push(added));
            },
            None => {},
        }
        i += 1;
    }
    assert(folders.deep_view().take(folders.len() as int) =~= folders.deep_view());
    models
}

} // verus!
