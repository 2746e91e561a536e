use proximity::constellation::Constellation;
use proximity::sky::{has_prefix, Metrics, Sky, SkyError};

fn bits(values: &[f32]) -> Vec<u32> {
    values.iter().map(|v| v.to_bits()).collect()
}

fn floats(values: &[u32]) -> Vec<f32> {
    values.iter().map(|v| f32::from_bits(*v)).collect()
}

/// Resolves `name` and scans its store for points within `within` of
/// `point`, computing plain Euclidean distances.
fn query(sky: &Sky, name: &str, within: f32, point: &[f32]) -> Result<Vec<(f32, Vec<f32>)>, SkyError> {
    let store = sky.query(&name.to_string(), &bits(point))?;
    Ok((0..store.count())
        .filter_map(|i| {
            let p = floats(&store.point(i));
            let distance = p
                .iter()
                .zip(point)
                .map(|(a, b)| (a - b).powf(2.))
                .sum::<f32>()
                .sqrt();
            if distance <= within {
                Some((distance, p))
            } else {
                None
            }
        })
        .collect())
}

fn describe(sky: &Sky, name: &str) -> Metrics {
    sky.describe(&name.to_string()).unwrap()
}

#[test]
fn add_then_describe_reports_count_and_dimensions() {
    for dims in [4usize, 64, 128, 256, 512] {
        let mut sky = Sky::default();
        let values: Vec<Vec<u32>> = (0..3).map(|k| vec![k as u32; dims]).collect();
        assert_eq!(sky.add("points".to_string(), values).unwrap(), 3);
        let m = describe(&sky, "points");
        assert_eq!(m.name, "points");
        assert_eq!(m.count, 3);
        assert_eq!(m.dimensions, dims);
        assert_eq!(m.memory_size, (3 * dims * 4) as u128);
    }
}

#[test]
fn mixed_lengths_insert_nothing() {
    let mut sky = Sky::default();
    let r = sky.add("x".to_string(), vec![vec![1; 4], vec![1; 64]]);
    match r {
        Err(SkyError::IncorrectSize { name, expected, given }) => {
            assert_eq!(name, "x");
            assert_eq!(expected, 4);
            assert_eq!(given, 64);
        }
        other => panic!("unexpected result {:?}", other),
    }
    assert!(matches!(sky.describe(&"x".to_string()), Err(SkyError::NotFound(_))));
    assert!(sky.list(&String::new()).is_empty());
}

#[test]
fn rejected_batch_leaves_existing_collection_unchanged() {
    let mut sky = Sky::default();
    sky.add("x".to_string(), vec![vec![1; 4]]).unwrap();
    let r = sky.add("x".to_string(), vec![vec![2; 4], vec![3; 4], vec![4; 5]]);
    assert!(matches!(r, Err(SkyError::IncorrectSize { expected: 4, given: 5, .. })));
    assert_eq!(describe(&sky, "x").count, 1);
}

#[test]
fn unsupported_first_length_is_invalid() {
    let mut sky = Sky::default();
    let r = sky.add("x".to_string(), vec![vec![1; 8]]);
    assert!(matches!(r, Err(SkyError::InvalidSize { given: 8 })));
    assert!(matches!(sky.describe(&"x".to_string()), Err(SkyError::NotFound(_))));
}

#[test]
fn other_supported_length_on_bound_name_is_incorrect() {
    let mut sky = Sky::default();
    sky.add("x".to_string(), vec![vec![1; 4]]).unwrap();
    let r = sky.add("x".to_string(), vec![vec![1; 64]]);
    assert!(matches!(r, Err(SkyError::IncorrectSize { expected: 4, given: 64, .. })));
    assert_eq!(describe(&sky, "x").dimensions, 4);
}

#[test]
fn empty_batch_adds_nothing() {
    let mut sky = Sky::default();
    assert_eq!(sky.add("x".to_string(), vec![]).unwrap(), 0);
    assert!(matches!(sky.describe(&"x".to_string()), Err(SkyError::NotFound(_))));
}

#[test]
fn memory_is_four_bytes_per_coordinate() {
    let mut sky = Sky::default();
    sky.add("m".to_string(), vec![vec![0; 64]; 5]).unwrap();
    sky.add("m".to_string(), vec![vec![0; 64]; 2]).unwrap();
    let m = describe(&sky, "m");
    assert_eq!(m.count, 7);
    assert_eq!(m.memory_size, 7 * 64 * 4);
}

#[test]
fn query_exact_boundary_returns_the_point() {
    let values = vec![1.0, 2.0, 3.0, 4.0];
    let mut sky = Sky::default();
    sky.add("hello".to_string(), vec![bits(&values)]).unwrap();
    let items = query(&sky, "hello", 0.0, &values).unwrap();
    assert_eq!(items, vec![(0.0, values)]);
}

#[test]
fn query_non_match_is_empty() {
    let mut sky = Sky::default();
    sky.add("p".to_string(), vec![bits(&[2., 2., 2., 2.])]).unwrap();
    let items = query(&sky, "p", 0.99, &[1., 1., 1., 1.]).unwrap();
    assert_eq!(items, vec![]);
}

#[test]
fn query_unknown_name_is_not_found() {
    let sky = Sky::default();
    let r = sky.query(&"nonexistent".to_string(), &bits(&[1., 1., 1., 1.]));
    match r {
        Err(SkyError::NotFound(name)) => assert_eq!(name, "nonexistent"),
        _ => panic!("expected NotFound"),
    }
}

#[test]
fn query_with_wrong_length_is_incorrect() {
    let mut sky = Sky::default();
    sky.add("p".to_string(), vec![vec![0; 4]]).unwrap();
    let r = sky.query(&"p".to_string(), &vec![0; 64]);
    assert!(matches!(r, Err(SkyError::IncorrectSize { expected: 4, given: 64, .. })));
}

#[test]
fn two_first_adds_share_one_collection() {
    let mut sky = Sky::default();
    assert_eq!(sky.add("same".to_string(), vec![vec![1; 4]; 2]).unwrap(), 2);
    assert_eq!(sky.add("same".to_string(), vec![vec![2; 4]; 3]).unwrap(), 3);
    let listed = sky.list(&String::new());
    assert_eq!(listed.len(), 1);
    assert_eq!(listed[0].name, "same");
    assert_eq!(listed[0].count, 5);
    let store = sky.query(&"same".to_string(), &vec![0; 4]).unwrap();
    assert_eq!(store.point(0), vec![1; 4]);
    assert_eq!(store.point(4), vec![2; 4]);
}

#[test]
fn list_filters_by_prefix_in_creation_order() {
    let mut sky = Sky::default();
    sky.add("alpha".to_string(), vec![vec![0; 4]]).unwrap();
    sky.add("beta".to_string(), vec![vec![0; 64]; 2]).unwrap();
    sky.add("alphabet".to_string(), vec![vec![0; 128]; 3]).unwrap();
    let names: Vec<String> = sky.list(&"alpha".to_string()).into_iter().map(|m| m.name).collect();
    assert_eq!(names, vec!["alpha", "alphabet"]);
    let all = sky.list(&String::new());
    assert_eq!(all.len(), 3);
    assert_eq!(all[1].name, "beta");
    assert_eq!(all[1].dimensions, 64);
    assert_eq!(all[2].memory_size, 3 * 128 * 4);
    assert!(sky.list(&"gamma".to_string()).is_empty());
}

#[test]
fn describe_unknown_name_is_not_found() {
    let sky = Sky::default();
    assert!(matches!(sky.describe(&"nothing".to_string()), Err(SkyError::NotFound(n)) if n == "nothing"));
}

#[test]
fn delete_is_unimplemented() {
    let mut sky = Sky::default();
    sky.add("keep".to_string(), vec![vec![0; 4]]).unwrap();
    assert!(matches!(sky.delete(&"keep".to_string()), Err(SkyError::Unimplemented)));
    assert_eq!(describe(&sky, "keep").count, 1);
}

#[test]
fn error_messages_name_the_problem() {
    assert_eq!(
        SkyError::InvalidSize { given: 8 }.message(),
        "A vector with length 8 is not valid. Valid sizes: 4, 64, 128, 256, 512, "
    );
    assert_eq!(
        SkyError::IncorrectSize { name: "hello".to_string(), expected: 64, given: 1024 }.message(),
        "Constellation hello requires vectors with length 64, but you gave 1024"
    );
    assert_eq!(
        SkyError::NotFound("gone".to_string()).message(),
        "A constellation with the name gone does not exist."
    );
    assert_eq!(SkyError::Unimplemented.message(), "This operation is not implemented.");
}

#[test]
fn prefix_check_compares_characters() {
    assert!(has_prefix(&"alphabet".to_string(), &"alpha".to_string()));
    assert!(has_prefix(&"alpha".to_string(), &String::new()));
    assert!(has_prefix(&"äbc".to_string(), &"ä".to_string()));
    assert!(!has_prefix(&"alp".to_string(), &"alpha".to_string()));
    assert!(!has_prefix(&"beta".to_string(), &"alpha".to_string()));
}
