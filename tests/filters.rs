use midgard_vault::filter::{parse_filter, parse_filters, CompareOp, Filter};
use midgard_vault::schema::Schema;

#[test]
fn parses_simple_greater_filter() {
    let schema = Schema::depth();
    let f = parse_filter(&schema, "assetDepth>1000");
    assert_eq!(f, Some(Filter { field: 0, op: CompareOp::Greater, value: 1000 }));
}

#[test]
fn compound_operators_win_over_simple_ones() {
    let schema = Schema::depth();
    assert_eq!(
        parse_filter(&schema, "runeDepth>=5"),
        Some(Filter { field: 1, op: CompareOp::GreaterEq, value: 5 })
    );
    assert_eq!(
        parse_filter(&schema, "runeDepth<=5"),
        Some(Filter { field: 1, op: CompareOp::LessEq, value: 5 })
    );
    assert_eq!(
        parse_filter(&schema, "runeDepth<5"),
        Some(Filter { field: 1, op: CompareOp::Less, value: 5 })
    );
    assert_eq!(
        parse_filter(&schema, "runeDepth=5"),
        Some(Filter { field: 1, op: CompareOp::Equal, value: 5 })
    );
}

#[test]
fn spaces_around_parts_are_ignored() {
    let schema = Schema::depth();
    assert_eq!(
        parse_filter(&schema, " runeDepth >= 42 "),
        Some(Filter { field: 1, op: CompareOp::GreaterEq, value: 42 })
    );
}

#[test]
fn malformed_filters_are_dropped() {
    let schema = Schema::depth();
    assert_eq!(parse_filter(&schema, "assetDepth"), None);
    assert_eq!(parse_filter(&schema, "assetDepth>"), None);
    assert_eq!(parse_filter(&schema, ">5"), None);
    assert_eq!(parse_filter(&schema, "assetDepth>abc"), None);
    assert_eq!(parse_filter(&schema, "assetDepth=>5"), None);
    assert_eq!(parse_filter(&schema, "assetDepth>>5"), None);
    assert_eq!(parse_filter(&schema, "assetDepth>-5"), None);
    assert_eq!(parse_filter(&schema, "noSuchField>5"), None);
    assert_eq!(parse_filter(&schema, "assetDepth>18446744073709551616"), None);
    assert_eq!(
        parse_filter(&schema, "assetDepth>18446744073709551615"),
        Some(Filter { field: 0, op: CompareOp::Greater, value: u64::MAX })
    );
}

#[test]
fn filter_list_keeps_valid_entries_in_order() {
    let schema = Schema::swaps();
    let texts = vec![
        "totalCount>10".to_string(),
        "bogus".to_string(),
        "toRuneVolume<=7".to_string(),
    ];
    let fs = parse_filters(&schema, &texts);
    assert_eq!(
        fs,
        vec![
            Filter { field: 8, op: CompareOp::Greater, value: 10 },
            Filter { field: 10, op: CompareOp::LessEq, value: 7 },
        ]
    );
}

#[test]
fn decimal_constants_use_field_units() {
    let schema = Schema::depth();
    assert_eq!(schema.decimals_of(7), 8);
    assert_eq!(
        parse_filter(&schema, "assetPrice>1.5"),
        Some(Filter { field: 7, op: CompareOp::Greater, value: 150_000_000 })
    );
    assert_eq!(
        parse_filter(&schema, "assetPrice<2"),
        Some(Filter { field: 7, op: CompareOp::Less, value: 200_000_000 })
    );
    assert_eq!(
        parse_filter(&schema, "assetPrice>=0.00000001"),
        Some(Filter { field: 7, op: CompareOp::GreaterEq, value: 1 })
    );
    assert_eq!(parse_filter(&schema, "assetPrice>0.000000001"), None);
    assert_eq!(parse_filter(&schema, "assetPrice>1."), None);
    assert_eq!(parse_filter(&schema, "assetPrice>.5"), None);
    assert_eq!(parse_filter(&schema, "assetPrice>1.2.3"), None);
    assert_eq!(parse_filter(&schema, "assetPrice>200000000000"), None);
}

#[test]
fn whole_unit_fields_take_no_fraction() {
    let schema = Schema::depth();
    assert_eq!(parse_filter(&schema, "assetDepth>1.5"), None);
    assert_eq!(
        parse_filter(&schema, "assetDepth>7"),
        Some(Filter { field: 0, op: CompareOp::Greater, value: 7 })
    );
}
