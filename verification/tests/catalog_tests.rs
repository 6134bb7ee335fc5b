use truck_catalog::catalog::{build_catalog, group_by_brand, Catalog};
use truck_catalog::listing::{
    has_definition_extension, list_files, list_folders, DirEntryData, FileData, FolderData,
};
use truck_catalog::models::{
    collect_models, list_engine_data, list_transmission_data, model_entry, LoadedFile, ModelFolder,
};
use truck_catalog::records::{BrandData, EngineInfo, TransmissionData};

fn text(s: &str) -> String {
    s.to_string()
}

fn entry(name: Option<&str>, is_dir: bool) -> DirEntryData {
    DirEntryData {
        path: format!("/root/{}", name.unwrap_or("?")),
        file_name: name.map(|n| n.to_string()),
        is_dir,
    }
}

fn loaded(name: &str, body: Option<&str>) -> LoadedFile {
    LoadedFile {
        file: FileData { path: format!("/root/{}", name), file_name: text(name) },
        text: body.map(|b| b.to_string()),
    }
}

fn engine_text(name: &str) -> String {
    format!("name: \"{}\"\ninfo[]: \"380 hp\"\ntorque: 1900\n", name)
}

fn transmission_text(name: &str) -> String {
    format!("name: \"{}\"\nratios_forward[0]: 3.40\nretarder: 3\nratios_forward[1]: 0.78\n", name)
}

fn folder(name: &str, engines: Option<Vec<LoadedFile>>, transmissions: Option<Vec<LoadedFile>>) -> ModelFolder {
    ModelFolder {
        folder: FolderData { path: format!("/root/{}", name), folder_name: text(name) },
        engines,
        transmissions,
    }
}

fn full_folder(name: &str) -> ModelFolder {
    folder(
        name,
        Some(vec![loaded("e.sii", Some(&engine_text("E")))]),
        Some(vec![loaded("t.sii", Some(&transmission_text("T")))]),
    )
}

fn model(brand: &str, name: &str) -> BrandData {
    BrandData {
        brand: text(brand),
        model: text(name),
        engines: vec![EngineInfo { name: text("E"), cv: text("1"), nm: text("2"), code: text("c") }],
        transmissions: vec![TransmissionData {
            name: text("T"),
            speeds: text("2"),
            retarder: false,
            ratio: text("2 - 1"),
            code: text("c"),
        }],
    }
}

fn names(catalog: &Catalog, brand: &str) -> Vec<String> {
    let mut found = Vec::new();
    for group in &catalog.groups {
        if group.brand == brand {
            for m in &group.models {
                found.push(m.model.clone());
            }
        }
    }
    found
}

#[test]
fn definition_extension_agrees_with_std_paths() {
    let candidates = [
        "a.sii", ".sii", "..sii", "sii", "a.sii.bak", "a.b.sii", "a.SII", "a.sii ", "a.", "a",
        "", ".", "a..sii", "engine.sii", "x.siii", "x.si", ".a.sii", "transmission.sui",
    ];
    for name in candidates {
        let expected = std::path::Path::new(name).extension().map(|e| e == "sii").unwrap_or(false);
        assert_eq!(has_definition_extension(&text(name)), expected, "{:?}", name);
    }
}

#[test]
fn files_are_the_definition_files_in_listing_order() {
    let entries = Some(vec![
        entry(Some("b.sii"), false),
        entry(Some("readme.txt"), false),
        entry(None, false),
        entry(Some(".sii"), false),
        entry(Some("a.sii"), false),
    ]);
    let files = list_files(&entries).unwrap();
    assert_eq!(files.len(), 2);
    assert_eq!(files[0].file_name, "b.sii");
    assert_eq!(files[0].path, "/root/b.sii");
    assert_eq!(files[1].file_name, "a.sii");
}

#[test]
fn file_listing_is_nothing_without_definition_files() {
    assert!(list_files(&None).is_none());
    assert!(list_files(&Some(Vec::new())).is_none());
    assert!(list_files(&Some(vec![entry(Some("a.txt"), false), entry(None, false)])).is_none());
}

#[test]
fn folders_are_the_directories_in_listing_order() {
    let entries = Some(vec![
        entry(Some("scania.r"), true),
        entry(Some("notes.sii"), false),
        entry(None, true),
        entry(Some("daf"), true),
    ]);
    let folders = list_folders(&entries).unwrap();
    assert_eq!(folders.len(), 2);
    assert_eq!(folders[0].folder_name, "scania.r");
    assert_eq!(folders[0].path, "/root/scania.r");
    assert_eq!(folders[1].folder_name, "daf");
}

#[test]
fn folder_listing_is_nothing_without_directories() {
    assert!(list_folders(&None).is_none());
    assert!(list_folders(&Some(Vec::new())).is_none());
    assert!(list_folders(&Some(vec![entry(Some("a.sii"), false)])).is_none());
}

#[test]
fn engine_list_keeps_the_files_that_define_an_engine() {
    let files = Some(vec![
        loaded("one.sii", Some(&engine_text("One"))),
        loaded("broken.sii", Some("name: \"Broken\"\n")),
        loaded("unreadable.sii", None),
        loaded("two.sii", Some(&engine_text("Two"))),
    ]);
    let engines = list_engine_data(&files, &text("scania.r")).unwrap();
    assert_eq!(engines.len(), 2);
    assert_eq!(engines[0].name, "One");
    assert_eq!(engines[0].code, "/def/vehicle/truck/scania.r/engine/one.sii");
    assert_eq!(engines[1].name, "Two");
    assert_eq!(engines[1].code, "/def/vehicle/truck/scania.r/engine/two.sii");
}

#[test]
fn engine_list_is_nothing_without_a_record() {
    assert!(list_engine_data(&None, &text("f")).is_none());
    assert!(list_engine_data(&Some(Vec::new()), &text("f")).is_none());
    assert!(list_engine_data(&Some(vec![loaded("x.sii", None)]), &text("f")).is_none());
}

#[test]
fn transmission_list_keeps_the_files_that_define_a_transmission() {
    let files = Some(vec![
        loaded("bad.sii", Some("name: \"Bad\"\nratios_forward[0]: 1\n")),
        loaded("good.sii", Some(&transmission_text("Good"))),
    ]);
    let list = list_transmission_data(&files, &text("daf.xf")).unwrap();
    assert_eq!(list.len(), 1);
    assert_eq!(list[0].name, "Good");
    assert!(list[0].retarder);
    assert_eq!(list[0].code, "/def/vehicle/truck/daf.xf/transmission/good.sii");
    assert!(list_transmission_data(&None, &text("daf.xf")).is_none());
    assert!(list_transmission_data(&Some(Vec::new()), &text("daf.xf")).is_none());
}

#[test]
fn model_entry_needs_engines_transmissions_and_a_dotted_name() {
    let entry = model_entry(&full_folder("scania.streamline")).unwrap();
    assert_eq!(entry.brand, "scania");
    assert_eq!(entry.model, "streamline");
    assert_eq!(entry.engines.len(), 1);
    assert_eq!(entry.transmissions.len(), 1);
    assert!(model_entry(&full_folder("scania")).is_none());
}

#[test]
fn model_without_transmissions_has_no_entry() {
    let engines = || Some(vec![loaded("e.sii", Some(&engine_text("E")))]);
    assert!(model_entry(&folder("scania.r", engines(), None)).is_none());
    assert!(model_entry(&folder("scania.r", engines(), Some(Vec::new()))).is_none());
    let unusable = Some(vec![loaded("t.sii", Some("name: \"T\"\n"))]);
    assert!(model_entry(&folder("scania.r", engines(), unusable)).is_none());
    let no_engines = folder("scania.r", None, Some(vec![loaded("t.sii", Some(&transmission_text("T")))]));
    assert!(model_entry(&no_engines).is_none());
}

#[test]
fn model_without_transmissions_is_not_in_the_catalog() {
    let folders = Some(vec![
        full_folder("scania.r"),
        folder("volvo.fh", Some(vec![loaded("e.sii", Some(&engine_text("E")))]), None),
        full_folder("daf.xf"),
    ]);
    let catalog = build_catalog(&folders).unwrap();
    assert_eq!(catalog.groups.len(), 2);
    assert_eq!(names(&catalog, "scania"), vec!["r"]);
    assert_eq!(names(&catalog, "daf"), vec!["xf"]);
    assert!(names(&catalog, "volvo").is_empty());
}

#[test]
fn models_of_one_brand_share_a_key_in_folder_order() {
    let folders = Some(vec![
        full_folder("scania.streamline"),
        full_folder("volvo.fh16"),
        full_folder("scania.r"),
        full_folder("scania.s"),
    ]);
    let catalog = build_catalog(&folders).unwrap();
    assert_eq!(catalog.groups.len(), 2);
    assert_eq!(names(&catalog, "scania"), vec!["streamline", "r", "s"]);
    assert_eq!(names(&catalog, "volvo"), vec!["fh16"]);
}

#[test]
fn grouping_keeps_every_model_once() {
    let models = vec![model("a", "1"), model("b", "2"), model("a", "3"), model("c", "4"), model("b", "5")];
    let catalog = group_by_brand(&models);
    assert_eq!(catalog.groups.len(), 3);
    assert_eq!(names(&catalog, "a"), vec!["1", "3"]);
    assert_eq!(names(&catalog, "b"), vec!["2", "5"]);
    assert_eq!(names(&catalog, "c"), vec!["4"]);
    let total: usize = catalog.groups.iter().map(|g| g.models.len()).sum();
    assert_eq!(total, models.len());
}

#[test]
fn catalog_add_appends_or_opens_a_group() {
    let mut catalog = Catalog::new();
    assert!(catalog.groups.is_empty());
    assert_eq!(catalog.find_group(&text("a")), None);
    catalog.add(model("a", "1"));
    catalog.add(model("b", "2"));
    catalog.add(model("a", "3"));
    assert_eq!(catalog.find_group(&text("a")), Some(0));
    assert_eq!(catalog.find_group(&text("b")), Some(1));
    assert_eq!(catalog.find_group(&text("c")), None);
    assert_eq!(names(&catalog, "a"), vec!["1", "3"]);
}

#[test]
fn catalog_of_nothing() {
    assert!(build_catalog(&None).is_none());
    assert!(build_catalog(&Some(Vec::new())).unwrap().groups.is_empty());
    assert!(collect_models(&vec![full_folder("nodot")]).is_empty());
}

#[test]
fn cloned_records_are_equal_field_by_field() {
    let first = model("scania", "r");
    let copy = first.clone();
    assert_eq!(copy.brand, first.brand);
    assert_eq!(copy.model, first.model);
    assert_eq!(copy.engines.len(), 1);
    assert_eq!(copy.engines[0].name, first.engines[0].name);
    assert_eq!(copy.engines[0].code, first.engines[0].code);
    assert_eq!(copy.transmissions[0].ratio, first.transmissions[0].ratio);
    assert_eq!(copy.transmissions[0].retarder, first.transmissions[0].retarder);
}

#[test]
fn records_compare_by_their_fields() {
    let entries = Some(vec![entry(Some("a.sii"), false)]);
    let expected = FileData { path: text("/root/a.sii"), file_name: text("a.sii") };
    assert_eq!(list_files(&entries), Some(vec![expected]));
    assert_eq!(model("a", "1"), model("a", "1").clone());
    assert_ne!(model("a", "1"), model("a", "2"));
}

#[test]
fn catalog_lookup_by_brand() {
    let catalog = group_by_brand(&vec![model("a", "1"), model("b", "2"), model("a", "3")]);
    let under_a = catalog.get(&text("a")).unwrap();
    assert_eq!(under_a.len(), 2);
    assert_eq!(under_a[0].model, "1");
    assert_eq!(under_a[1].model, "3");
    assert_eq!(catalog.get(&text("b")).unwrap().len(), 1);
    assert!(catalog.get(&text("c")).is_none());
    assert!(Catalog::new().get(&text("a")).is_none());
}
