use conll_tools::features::FeatureMap;
use conll_tools::topo::{most_specific_topo, specific_topo_token, TopoError};

fn s(x: &str) -> String {
    x.to_string()
}

#[test]
fn most_specific_is_last_part() {
    assert_eq!(most_specific_topo("VF-LK"), "LK");
    assert_eq!(most_specific_topo("NF-VF-MF"), "MF");
    assert_eq!(most_specific_topo("VF"), "VF");
    assert_eq!(most_specific_topo("VF-"), "");
    assert_eq!(most_specific_topo(""), "");
}

#[test]
fn most_specific_is_idempotent() {
    for t in ["VF-LK", "A-B-C", "X", "-", ""] {
        let once = most_specific_topo(t);
        assert_eq!(most_specific_topo(&once), once);
    }
}

#[test]
fn topo_feature_is_rewritten() {
    let mut m = FeatureMap::new();
    m.insert(s("TopoField"), Some(s("VF-LK")));
    m.insert(s("other"), Some(s("a-b")));
    specific_topo_token(&mut m).unwrap();
    assert_eq!(m.get(&s("TopoField")), Some(&Some(s("LK"))));
    assert_eq!(m.get(&s("other")), Some(&Some(s("a-b"))));
}

#[test]
fn topo_feature_without_value_is_an_error() {
    let mut m = FeatureMap::new();
    m.insert(s("TopoField"), None);
    assert_eq!(specific_topo_token(&mut m), Err(TopoError::MissingValue));
    assert_eq!(m.get(&s("TopoField")), Some(&None));
}

#[test]
fn no_topo_feature_changes_nothing() {
    let mut m = FeatureMap::new();
    m.insert(s("x"), Some(s("a-b")));
    specific_topo_token(&mut m).unwrap();
    assert_eq!(m.get(&s("x")), Some(&Some(s("a-b"))));
    assert_eq!(m.entries().len(), 1);
}
