use serde_json::Value;
use truck_catalog::catalog::{group_by_brand, Catalog};
use truck_catalog::records::{BrandData, EngineInfo, TransmissionData};

fn text(s: &str) -> String {
    s.to_string()
}

fn model(brand: &str, name: &str, engines: usize) -> BrandData {
    let mut list = Vec::new();
    for i in 0..engines {
        list.push(EngineInfo {
            name: format!("Engine \"{}\"", i),
            cv: text("380"),
            nm: text("1900"),
            code: format!("/def/vehicle/truck/{}.{}/engine/e{}.sii", brand, name, i),
        });
    }
    BrandData {
        brand: text(brand),
        model: text(name),
        engines: list,
        transmissions: vec![TransmissionData {
            name: text("T\\12"),
            speeds: text("12"),
            retarder: true,
            ratio: text("14.94 - 1.00"),
            code: format!("/def/vehicle/truck/{}.{}/transmission/t.sii", brand, name),
        }],
    }
}

fn field(object: &mut serde_json::Map<String, Value>, key: &str, value: &str) {
    object.insert(key.to_string(), Value::String(value.to_string()));
}

fn engine_value(e: &EngineInfo) -> Value {
    let mut object = serde_json::Map::new();
    field(&mut object, "name", &e.name);
    field(&mut object, "cv", &e.cv);
    field(&mut object, "nm", &e.nm);
    field(&mut object, "code", &e.code);
    Value::Object(object)
}

fn transmission_value(t: &TransmissionData) -> Value {
    let mut object = serde_json::Map::new();
    field(&mut object, "name", &t.name);
    field(&mut object, "speeds", &t.speeds);
    object.insert(text("retarder"), Value::Bool(t.retarder));
    field(&mut object, "ratio", &t.ratio);
    field(&mut object, "code", &t.code);
    Value::Object(object)
}

fn model_value(m: &BrandData) -> Value {
    let mut object = serde_json::Map::new();
    field(&mut object, "model", &m.model);
    object.insert(text("engines"), Value::Array(m.engines.iter().map(engine_value).collect()));
    object.insert(
        text("transmissions"),
        Value::Array(m.transmissions.iter().map(transmission_value).collect()),
    );
    Value::Object(object)
}

fn document(catalog: &Catalog) -> Value {
    let mut object = serde_json::Map::new();
    for group in &catalog.groups {
        object.insert(group.brand.clone(), Value::Array(group.models.iter().map(model_value).collect()));
    }
    Value::Object(object)
}

fn sample() -> Catalog {
    group_by_brand(&vec![
        model("scania", "r", 2),
        model("volvo", "fh16", 1),
        model("scania", "streamline", 3),
        model("daf", "xf", 1),
    ])
}

#[test]
fn json_round_trip_keeps_brands_and_model_counts() {
    let catalog = sample();
    for json in [
        serde_json::to_string_pretty(&document(&catalog)).unwrap(),
        serde_json::to_string(&document(&catalog)).unwrap(),
    ] {
        let parsed: Value = serde_json::from_str(&json).unwrap();
        let object = parsed.as_object().unwrap();
        assert_eq!(object.len(), catalog.groups.len());
        for group in &catalog.groups {
            let models = object.get(&group.brand).unwrap().as_array().unwrap();
            assert_eq!(models.len(), group.models.len());
            for (written, kept) in models.iter().zip(&group.models) {
                assert_eq!(written["model"], Value::String(kept.model.clone()));
                assert_eq!(written["engines"].as_array().unwrap().len(), kept.engines.len());
                assert_eq!(written["transmissions"][0]["retarder"], Value::Bool(true));
                assert_eq!(written["transmissions"][0]["speeds"], Value::String(text("12")));
            }
        }
    }
}

#[test]
fn json_round_trip_of_the_empty_catalog() {
    let catalog = group_by_brand(&Vec::new());
    let json = serde_json::to_string_pretty(&document(&catalog)).unwrap();
    assert_eq!(json, "{}");
    let parsed: Value = serde_json::from_str(&json).unwrap();
    assert!(parsed.as_object().unwrap().is_empty());
}
