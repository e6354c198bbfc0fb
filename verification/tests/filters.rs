use lupinas_lullaby::repr::JavaScriptType;
use lupinas_lullaby::repr::JavaScriptValue;
use lupinas_lullaby::repr::ObjectRow;
use lupinas_lullaby::repr::filter_empty_types;
use lupinas_lullaby::repr::filter_unwanted_types;

fn record(fields: Vec<(&str, bool, JavaScriptType)>) -> JavaScriptType {
    JavaScriptType::AnonymousObject(
        fields
            .into_iter()
            .map(|(name, required, ttype)| (name.to_string(), ObjectRow::from_data(required, ttype)))
            .collect(),
    )
}

#[test]
fn empty_record_prunes_away() {
    assert!(filter_empty_types(&record(vec![])).is_none());
}

#[test]
fn empty_sum_prunes_away() {
    assert!(filter_empty_types(&JavaScriptType::Sum(vec![])).is_none());
}

#[test]
fn empty_product_prunes_away() {
    assert!(filter_empty_types(&JavaScriptType::Product(vec![])).is_none());
}

#[test]
fn named_and_literal_types_survive_pruning() {
    let named = JavaScriptType::typename("Pet");
    assert_eq!(filter_empty_types(&named).unwrap().to_text(), "Pet");
    let lit = JavaScriptType::Value(Box::new(JavaScriptValue::Bool(true)));
    assert_eq!(filter_empty_types(&lit).unwrap().to_text(), "true");
}

#[test]
fn pruning_drops_empty_members_and_fields() {
    let t = JavaScriptType::Product(vec![
        record(vec![]),
        JavaScriptType::typename("A"),
        record(vec![("x", true, record(vec![]))]),
    ]);
    let pruned = filter_empty_types(&t).unwrap();
    assert_eq!(pruned.to_text(), "A");

    let arr = JavaScriptType::Array(Box::new(record(vec![])));
    assert!(filter_empty_types(&arr).is_none());
}

#[test]
fn pruning_is_idempotent_on_examples() {
    let samples = vec![
        JavaScriptType::Product(vec![
            record(vec![]),
            JavaScriptType::typename("A"),
            JavaScriptType::Sum(vec![record(vec![]), JavaScriptType::typename("B")]),
        ]),
        record(vec![
            ("keep", true, JavaScriptType::typename("string")),
            ("drop", false, record(vec![])),
        ]),
        JavaScriptType::Array(Box::new(JavaScriptType::typename("number"))),
    ];
    for t in samples {
        let once = filter_empty_types(&t).unwrap();
        let twice = filter_empty_types(&once).unwrap();
        assert_eq!(once.to_text(), twice.to_text());
    }
}

#[test]
fn exclusion_drops_listed_names_only() {
    let skip = vec!["Date".to_string()];
    let t = JavaScriptType::Sum(vec![
        JavaScriptType::typename("Date"),
        JavaScriptType::typename("string"),
    ]);
    let kept = filter_unwanted_types(&t, &skip).unwrap();
    assert_eq!(kept.to_text(), "string");

    let gone = filter_unwanted_types(&JavaScriptType::typename("Date"), &skip);
    assert!(gone.is_none());
}

#[test]
fn exclusion_propagates_through_records() {
    let skip = vec!["Secret".to_string()];
    let t = record(vec![("s", true, JavaScriptType::typename("Secret"))]);
    assert!(filter_unwanted_types(&t, &skip).is_none());
}

#[test]
fn exclusion_is_idempotent_on_examples() {
    let skip = vec!["A".to_string(), "B".to_string()];
    let t = JavaScriptType::Sum(vec![
        JavaScriptType::typename("A"),
        JavaScriptType::typename("C"),
        record(vec![("f", false, JavaScriptType::typename("B"))]),
    ]);
    let once = filter_unwanted_types(&t, &skip).unwrap();
    let twice = filter_unwanted_types(&once, &skip).unwrap();
    assert_eq!(once.to_text(), twice.to_text());
    assert_eq!(once.to_text(), "C");
}

#[test]
fn filter_order_does_not_matter_on_examples() {
    let skip = vec!["Gone".to_string()];
    let samples = vec![
        record(vec![
            ("a", true, JavaScriptType::typename("Gone")),
            ("b", false, JavaScriptType::typename("string")),
            ("c", true, record(vec![])),
        ]),
        JavaScriptType::Sum(vec![
            JavaScriptType::typename("Gone"),
            record(vec![]),
            JavaScriptType::typename("Keep"),
        ]),
        record(vec![("only", true, JavaScriptType::typename("Gone"))]),
    ];
    for t in samples {
        let exclude_then_prune = filter_unwanted_types(&t, &skip)
            .and_then(|u| filter_empty_types(&u))
            .map(|u| u.to_text());
        let prune_then_exclude = filter_empty_types(&t)
            .and_then(|u| filter_unwanted_types(&u, &skip))
            .map(|u| u.to_text());
        assert_eq!(exclude_then_prune, prune_then_exclude);
    }
}
