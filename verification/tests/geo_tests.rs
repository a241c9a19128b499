use epicycles::geo::{
    geo_feature_props_to_array, prefecture_id, props_array_to_name, select_boundary_feature,
};

fn props(pairs: &[(&str, Option<&str>)]) -> Vec<(String, Option<String>)> {
    pairs
        .iter()
        .map(|(k, v)| (k.to_string(), v.map(|s| s.to_string())))
        .collect()
}

#[test]
fn test_get_muni_name() {
    let raw_test_data: Vec<(Vec<(String, Option<String>)>, &str)> = vec![
        (
            props(&[
                ("N03_001", Some("京都府")),
                ("N03_002", None),
                ("N03_003", Some("与謝郡")),
                ("N03_004", Some("伊根町")),
                ("N03_007", Some("26463")),
            ]),
            "京都府与謝郡伊根町",
        ),
        (
            props(&[
                ("N03_001", Some("兵庫県")),
                ("N03_002", None),
                ("N03_003", Some("神戸市")),
                ("N03_004", Some("神戸市東灘区")),
                ("N03_007", Some("28101")),
            ]),
            "兵庫県神戸市東灘区",
        ),
    ];

    for (pairs, answer) in raw_test_data.iter() {
        let array = geo_feature_props_to_array(pairs);
        assert!(array.is_ok());
        let name = props_array_to_name(&array.unwrap());
        assert_eq!(&name, answer);
    }
}

#[test]
fn props_array_rejects_malformed_keys() {
    assert!(geo_feature_props_to_array(&props(&[("N03_008", Some("x"))])).is_err());
    assert!(geo_feature_props_to_array(&props(&[("N03_000", Some("x"))])).is_err());
    assert!(geo_feature_props_to_array(&props(&[("X03_001", Some("x"))])).is_err());
    assert!(geo_feature_props_to_array(&props(&[("N03_0011", Some("x"))])).is_err());
    assert!(geo_feature_props_to_array(&props(&[("", None)])).is_err());
}

#[test]
fn props_array_fills_slots() {
    let arr = geo_feature_props_to_array(&props(&[
        ("N03_004", Some("伊根町")),
        ("N03_001", Some("京都府")),
    ]))
    .unwrap();
    assert_eq!(arr[0].as_deref(), Some("京都府"));
    assert_eq!(arr[1], None);
    assert_eq!(arr[3].as_deref(), Some("伊根町"));
    assert_eq!(arr[6], None);
}

#[test]
fn props_array_last_key_wins() {
    let arr = geo_feature_props_to_array(&props(&[
        ("N03_001", Some("京都府")),
        ("N03_001", Some("兵庫県")),
    ]))
    .unwrap();
    assert_eq!(arr[0].as_deref(), Some("兵庫県"));
}

#[test]
fn designated_city_is_dropped_from_name() {
    // Slot 2 holding an ordinance-designated city contributes nothing,
    // because slot 3 already repeats it.
    let arr = geo_feature_props_to_array(&props(&[
        ("N03_001", Some("兵庫県")),
        ("N03_003", Some("神戸市")),
        ("N03_004", Some("神戸市東灘区")),
    ]))
    .unwrap();
    assert_eq!(props_array_to_name(&arr), "兵庫県神戸市東灘区");
    // An ordinary district in slot 2 stays.
    let arr = geo_feature_props_to_array(&props(&[
        ("N03_001", Some("京都府")),
        ("N03_003", Some("与謝郡")),
        ("N03_004", Some("伊根町")),
    ]))
    .unwrap();
    assert_eq!(props_array_to_name(&arr), "京都府与謝郡伊根町");
}

#[test]
fn prefecture_id_finds_the_file() {
    let prefectures: Vec<String> = vec![
        "北海道".to_string(),
        "京都府".to_string(),
        "兵庫県".to_string(),
    ];
    // The prefecture part is extracted from the full name, so handing the
    // full name back unchanged would match nothing here.
    assert_eq!(prefecture_id(&prefectures, "京都府与謝郡伊根町"), Some(1));
    assert_eq!(prefecture_id(&prefectures, "兵庫県神戸市東灘区"), Some(2));
    assert_eq!(prefecture_id(&prefectures, "北海道札幌市"), Some(0));
    assert_eq!(prefecture_id(&prefectures, "東京都千代田区"), None);
    assert_eq!(prefecture_id(&prefectures, "nothing here"), None);
}

#[test]
fn select_boundary_feature_takes_last_largest() {
    let names: Vec<String> = vec![
        "京都府与謝郡伊根町".to_string(),
        "京都府宮津市".to_string(),
        "京都府与謝郡伊根町".to_string(),
        "京都府与謝郡伊根町".to_string(),
    ];
    let counts: Vec<usize> = vec![10, 99, 25, 25];
    let target = "京都府与謝郡伊根町".to_string();
    // Two equal maxima among the matches: the last one wins.
    assert_eq!(select_boundary_feature(&names, &counts, &target), Some(3));
    assert_eq!(
        select_boundary_feature(&names, &counts, &"京都府宮津市".to_string()),
        Some(1)
    );
    assert_eq!(
        select_boundary_feature(&names, &counts, &"奈良県奈良市".to_string()),
        None
    );
}
