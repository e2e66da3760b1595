use tlb_serial::cell::CellSerialize;
use tlb_serial::error::SchemaError;
use tlb_serial::layout::{parse_layout, Directive};
use tlb_serial::plan::{tlb_serializable, resolve_layout, run_plan, Fields, Step, StructPlan};
use tlb_serial::ton::{Address, Coins, CurrencyCollection};
use tlb_serial::variants::{
    tlb_enum_serializable, tlb_enum_serializable_with, serialize_variant, tag_policy, EnumAttr, TagPolicy,
    VariantDecl,
};

fn strings(items: &[&str]) -> Vec<String> {
    items.iter().map(|s| s.to_string()).collect()
}

fn named(items: &[&str]) -> Fields {
    Fields::Named(strings(items))
}

fn variant(name: &str, fields: &[&str], layout: &str, discriminant: Option<&str>) -> VariantDecl {
    VariantDecl {
        name: name.to_string(),
        fields: named(fields),
        layouts: vec![layout.to_string()],
        discriminant: discriminant.map(|d| d.to_string()),
    }
}

fn boc() -> Vec<VariantDecl> {
    vec![
        variant("Empty", &[], "u 0 16bit", Some("0")),
        variant("Normal", &[], "", Some("0xb5eec792")),
    ]
}

#[test]
fn parse_keeps_order_and_kinds() {
    let ds = parse_layout("u 4 3bit, workchain, hash_high, hash_low");
    assert_eq!(
        ds,
        vec![
            Directive::Literal("u 4 3bit".to_string()),
            Directive::FieldRef("workchain".to_string()),
            Directive::FieldRef("hash_high".to_string()),
            Directive::FieldRef("hash_low".to_string()),
        ]
    );
}

#[test]
fn parse_trims_and_skips_blank_segments() {
    let ds = parse_layout(" , grams ,,\tu 0 1bit\n, ");
    assert_eq!(
        ds,
        vec![
            Directive::FieldRef("grams".to_string()),
            Directive::Literal("u 0 1bit".to_string()),
        ]
    );
    assert_eq!(parse_layout(""), vec![]);
    assert_eq!(parse_layout(" , ,"), vec![]);
    assert_eq!(parse_layout("u"), vec![Directive::FieldRef("u".to_string())]);
}

#[test]
fn resolve_maps_names_to_positions() {
    let ds = parse_layout("b, u 1 1bit, a, b");
    let steps = resolve_layout(&ds, &strings(&["a", "b"])).unwrap();
    assert_eq!(
        steps,
        vec![Step::Field(1), Step::Emit("u 1 1bit".to_string()), Step::Field(0), Step::Field(1)]
    );
}

#[test]
fn unknown_field_is_named() {
    let ds = parse_layout("u 4 3bit, workchain, hash_middle");
    let r = resolve_layout(&ds, &strings(&["workchain", "hash_high", "hash_low"]));
    assert_eq!(r, Err(SchemaError::UnknownField("hash_middle".to_string())));
    let r = tlb_serializable("grams, nonexistent", &named(&["grams"]));
    assert_eq!(r, Err(SchemaError::UnknownField("nonexistent".to_string())));
    assert_eq!(
        SchemaError::UnknownField("nonexistent".to_string()).message(),
        "unknown field nonexistent"
    );
}

#[test]
fn struct_plan_matches_address_serializer() {
    let layout = "u 4 3bit, workchain, hash_high, hash_low";
    let plan = tlb_serializable(layout, &named(&["workchain", "hash_high", "hash_low"])).unwrap();
    let a = Address { workchain: 9, hash_high: 10, hash_low: 11 };
    let fields = vec![a.workchain.serialize(), a.hash_high.serialize(), a.hash_low.serialize()];
    match plan {
        StructPlan::Steps(steps) => assert_eq!(run_plan(&steps, &fields), a.serialize()),
        StructPlan::VarUint16 => panic!("expected steps"),
    }
}

#[test]
fn struct_plan_matches_currency_collection_serializer() {
    let plan = tlb_serializable("grams, u 0 1bit", &named(&["grams"])).unwrap();
    let c = CurrencyCollection { grams: Coins(0) };
    match plan {
        StructPlan::Steps(steps) => {
            let out = run_plan(&steps, &vec![c.grams.serialize()]);
            assert_eq!(out, strings(&["u 0 4bit", "u 0 0bit", "u 0 1bit"]));
            assert_eq!(out, c.serialize());
        },
        StructPlan::VarUint16 => panic!("expected steps"),
    }
}

#[test]
fn repeated_field_duplicates_its_bits() {
    let plan = tlb_serializable("x, x", &named(&["x"])).unwrap();
    match plan {
        StructPlan::Steps(steps) => assert_eq!(
            run_plan(&steps, &vec![true.serialize()]),
            strings(&["u 1 1bit", "u 1 1bit"])
        ),
        StructPlan::VarUint16 => panic!("expected steps"),
    }
}

#[test]
fn varuint_layout_shapes() {
    assert_eq!(
        tlb_serializable("__fundamental_varuint16", &Fields::Unnamed(1)),
        Ok(StructPlan::VarUint16)
    );
    assert_eq!(
        tlb_serializable("__fundamental_varuint16", &Fields::Unnamed(2)),
        Err(SchemaError::VarUintShape)
    );
    assert_eq!(
        tlb_serializable("__fundamental_varuint16", &named(&["value"])),
        Err(SchemaError::VarUintShape)
    );
    assert_eq!(tlb_serializable("a", &Fields::Unnamed(1)), Err(SchemaError::NamedFieldsRequired));
    assert_eq!(tlb_serializable("a", &Fields::Unit), Err(SchemaError::NamedFieldsRequired));
}

#[test]
fn tag_policies() {
    assert_eq!(tag_policy(&vec![EnumAttr::Repr(32)]), Ok(TagPolicy::Wanted(32)));
    assert_eq!(
        tag_policy(&vec![
            EnumAttr::Other,
            EnumAttr::AssertUnsafe("something_else".to_string()),
            EnumAttr::AssertUnsafe("items_prefixes_nonoverlap".to_string()),
        ]),
        Ok(TagPolicy::NotWanted)
    );
    assert_eq!(tag_policy(&vec![]), Err(SchemaError::MissingTagPolicy));
    assert_eq!(
        tag_policy(&vec![EnumAttr::AssertUnsafe("something_else".to_string())]),
        Err(SchemaError::MissingTagPolicy)
    );
    assert_eq!(
        tag_policy(&vec![
            EnumAttr::AssertUnsafe("items_prefixes_nonoverlap".to_string()),
            EnumAttr::Repr(16),
        ]),
        Err(SchemaError::ConflictingTagPolicy)
    );
    assert_eq!(
        tag_policy(&vec![EnumAttr::Repr(8), EnumAttr::Repr(16)]),
        Err(SchemaError::ConflictingTagPolicy)
    );
}

#[test]
fn tagged_first_variant() {
    let plan = tlb_enum_serializable(&vec![EnumAttr::Repr(32)], &boc()).unwrap();
    assert_eq!(serialize_variant(&plan, 0, &vec![]), strings(&["u 0 32bit", "u 0 16bit"]));
}

#[test]
fn tagged_explicit_hex_discriminant() {
    let plan = tlb_enum_serializable(&vec![EnumAttr::Repr(32)], &boc()).unwrap();
    assert_eq!(plan.variants[1].discriminant, 0xb5eec792);
    assert_eq!(serialize_variant(&plan, 1, &vec![]), strings(&["u 3052324754 32bit"]));
}

#[test]
fn tagged_explicit_discriminant_in_decimal() {
    let vs = vec![
        variant("Empty", &[], "u 0 16bit", Some("0")),
        variant("Normal", &[], "", Some("3134984594")),
    ];
    let plan = tlb_enum_serializable(&vec![EnumAttr::Repr(32)], &vs).unwrap();
    assert_eq!(serialize_variant(&plan, 1, &vec![]), strings(&["u 3134984594 32bit"]));
    let vs = vec![variant("Normal", &[], "", Some("0xbadc1192"))];
    let plan = tlb_enum_serializable(&vec![EnumAttr::Repr(32)], &vs).unwrap();
    assert_eq!(serialize_variant(&plan, 0, &vec![]), strings(&["u 3134984594 32bit"]));
}

#[test]
fn discriminants_count_up_from_last_explicit() {
    let vs = vec![
        variant("A", &[], "", None),
        variant("B", &[], "", Some("5")),
        variant("C", &[], "", None),
        variant("D", &[], "", Some("1_000u64")),
        variant("E", &[], "", None),
    ];
    let plan = tlb_enum_serializable(&vec![EnumAttr::Repr(16)], &vs).unwrap();
    let ds: Vec<u64> = plan.variants.iter().map(|v| v.discriminant).collect();
    assert_eq!(ds, vec![0, 5, 6, 1000, 1001]);
    assert_eq!(serialize_variant(&plan, 2, &vec![]), strings(&["u 6 16bit"]));
}

#[test]
fn discriminants_from_read_values() {
    let vs = vec![variant("A", &[], "", Some("ignored")), variant("B", &[], "", None)];
    let plan = tlb_enum_serializable_with(&vec![EnumAttr::Repr(8)], &vs, &vec![Some(7), None]).unwrap();
    let ds: Vec<u64> = plan.variants.iter().map(|v| v.discriminant).collect();
    assert_eq!(ds, vec![7, 8]);
}

#[test]
fn untagged_variant_writes_only_its_layout() {
    let vs = vec![variant("int_msg_info", &["bounce"], "u 0 1bit, bounce", None)];
    let attrs = vec![EnumAttr::AssertUnsafe("items_prefixes_nonoverlap".to_string())];
    let plan = tlb_enum_serializable(&attrs, &vs).unwrap();
    assert_eq!(plan.policy, TagPolicy::NotWanted);
    assert_eq!(
        serialize_variant(&plan, 0, &vec![true.serialize()]),
        strings(&["u 0 1bit", "u 1 1bit"])
    );
}

#[test]
fn variant_layout_errors() {
    let attrs = vec![EnumAttr::Repr(8)];
    let mut missing = variant("A", &[], "", None);
    missing.layouts = vec![];
    assert_eq!(
        tlb_enum_serializable(&attrs, &vec![missing]),
        Err(SchemaError::MissingLayout("A".to_string()))
    );
    let mut twice = variant("B", &[], "", None);
    twice.layouts = strings(&["", "u 1 1bit"]);
    assert_eq!(
        tlb_enum_serializable(&attrs, &vec![twice]),
        Err(SchemaError::MultipleLayouts("B".to_string()))
    );
    assert_eq!(
        tlb_enum_serializable(&attrs, &vec![variant("C", &["x"], "y", None)]),
        Err(SchemaError::UnknownField("y".to_string()))
    );
    assert_eq!(
        tlb_enum_serializable(&attrs, &vec![variant("D", &[], "__fundamental_varuint16", None)]),
        Err(SchemaError::VarUintShape)
    );
    assert_eq!(tlb_enum_serializable(&vec![], &boc()), Err(SchemaError::MissingTagPolicy));
}

#[test]
fn discriminant_errors() {
    let attrs = vec![EnumAttr::Repr(64)];
    assert_eq!(
        tlb_enum_serializable(&attrs, &vec![variant("A", &[], "", Some("abc"))]),
        Err(SchemaError::BadDiscriminant("A".to_string()))
    );
    assert_eq!(
        tlb_enum_serializable(&attrs, &vec![variant("A", &[], "", Some("18446744073709551616"))]),
        Err(SchemaError::BadDiscriminant("A".to_string()))
    );
    let vs = vec![
        variant("A", &[], "", Some("18446744073709551615")),
        variant("B", &[], "", None),
    ];
    assert_eq!(
        tlb_enum_serializable(&attrs, &vs),
        Err(SchemaError::DiscriminantOverflow("B".to_string()))
    );
    let vs = vec![
        variant("A", &[], "", Some("1")),
        variant("B", &[], "", Some("0")),
        variant("C", &[], "", None),
    ];
    assert_eq!(
        tlb_enum_serializable(&attrs, &vs),
        Err(SchemaError::DuplicateDiscriminant("C".to_string()))
    );
}

#[test]
fn malformed_literal_segment_is_named() {
    for bad in ["u x", "u 1 2", "u 1 2bits", "u  1 2bit", "u 1 bit", "u 1 2 3bit", "u -1 8bit"] {
        let layout = format!("a, {}", bad);
        assert_eq!(
            tlb_serializable(&layout, &named(&["a"])),
            Err(SchemaError::MalformedSegment(bad.to_string()))
        );
    }
    assert!(tlb_serializable("u 0 0bit, u 12 345bit", &named(&[])).is_ok());
    assert_eq!(
        SchemaError::MalformedSegment("u x".to_string()).message(),
        "malformed layout segment u x"
    );
}

#[test]
fn discriminant_must_fit_tag() {
    let vs = vec![variant("A", &[], "", Some("255")), variant("B", &[], "", None)];
    assert_eq!(
        tlb_enum_serializable(&vec![EnumAttr::Repr(8)], &vs),
        Err(SchemaError::DiscriminantTooWide("B".to_string()))
    );
    let vs = vec![variant("A", &[], "", Some("300"))];
    assert_eq!(
        tlb_enum_serializable(&vec![EnumAttr::Repr(8)], &vs),
        Err(SchemaError::DiscriminantTooWide("A".to_string()))
    );
    let plan = tlb_enum_serializable(&vec![EnumAttr::Repr(9)], &vs).unwrap();
    assert_eq!(serialize_variant(&plan, 0, &vec![]), strings(&["u 300 9bit"]));
    let attrs = vec![EnumAttr::AssertUnsafe("items_prefixes_nonoverlap".to_string())];
    assert!(tlb_enum_serializable(&attrs, &vs).is_ok());
}

#[test]
fn discriminant_text_must_be_plain() {
    let attrs = vec![EnumAttr::Repr(32)];
    for bad in ["\u{a0}5", " 5", "5 ", "-1", "x5", ""] {
        let vs = vec![variant("A", &[], "", Some(bad))];
        assert_eq!(
            tlb_enum_serializable(&attrs, &vs),
            Err(SchemaError::BadDiscriminant("A".to_string()))
        );
    }
    let vs = vec![variant("A", &[], "", Some("0b101"))];
    let plan = tlb_enum_serializable(&attrs, &vs).unwrap();
    assert_eq!(plan.variants[0].discriminant, 5);
}

#[test]
fn error_messages_name_the_fault() {
    assert_eq!(SchemaError::MissingLayout("V".to_string()).message(), "a layout is required for variant V");
    assert_eq!(
        SchemaError::DuplicateDiscriminant("C".to_string()).message(),
        "discriminant already taken, at variant C"
    );
    assert_eq!(
        SchemaError::MissingTagPolicy.message(),
        "don't know how to differentiate the tags of the variants"
    );
    assert_eq!(
        SchemaError::DiscriminantTooWide("B".to_string()).message(),
        "discriminant does not fit the tag, at variant B"
    );
}

#[test]
fn layout_split_at_comma_splits_output() {
    let names = &["a", "b"];
    let fields = vec![7u8.serialize(), true.serialize()];
    let run = |layout: &str| match tlb_serializable(layout, &named(names)).unwrap() {
        StructPlan::Steps(steps) => run_plan(&steps, &fields),
        StructPlan::VarUint16 => panic!("expected steps"),
    };
    let mut joined = run("u 1 2bit, a");
    joined.extend(run(" b, u 0 1bit"));
    assert_eq!(run("u 1 2bit, a, b, u 0 1bit"), joined);
    assert_eq!(parse_layout("a ,b"), [parse_layout("a "), parse_layout("b")].concat());
}
