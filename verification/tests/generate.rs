use derivator::attrs::{Args, Attribute, Attrs, Meta};
use derivator::derive::{derive_debug, derive_debug_or_display, derive_display, Body};
use derivator::error::{Diagnostic, Error, Span};
use derivator::fragment::{Arg, Binding, Fragment};
use derivator::impl_struct::StructGen;
use derivator::join::DisplayJoin;
use derivator::shape::{Data, DeriveInput, Fields, Ident, NamedField, UnnamedField, Variant};
use derivator::text::split_commas;

fn sp(id: u64) -> Span {
    Span { id }
}

fn kv(key: &str, key_at: u64, value: &str, value_at: u64) -> Meta {
    Meta::NameValue {
        path: key.to_string(),
        path_span: sp(key_at),
        value: Some(value.to_string()),
        value_span: sp(value_at),
    }
}

fn attr(name: &str, entries: Vec<Meta>) -> Attribute {
    Attribute { name: name.to_string(), args: Args::Parsed(entries) }
}

fn ident(name: &str, at: u64) -> Ident {
    Ident { name: name.to_string(), span: sp(at) }
}

fn named(name: &str, at: u64, attrs: Vec<Attribute>) -> NamedField {
    NamedField { name: name.to_string(), span: sp(at), attrs }
}

fn unnamed(at: u64, attrs: Vec<Attribute>) -> UnnamedField {
    UnnamedField { span: sp(at), attrs }
}

fn bind(name: &str) -> Binding {
    Binding { name: name.to_string(), bound: true }
}

fn skip(name: &str) -> Binding {
    Binding { name: name.to_string(), bound: false }
}

fn plain(name: &str) -> Arg {
    Arg { name: name.to_string(), format: None, concat: false }
}

fn report(parts: &[(u64, &str)]) -> Error {
    Error {
        parts: parts
            .iter()
            .map(|(id, m)| Diagnostic { span: sp(*id), message: m.to_string() })
            .collect(),
    }
}

fn product(name: &str, attrs: Vec<Attribute>, fields: Fields) -> DeriveInput {
    DeriveInput { ident: ident(name, 1), attrs, data: Data::Struct(fields) }
}

fn display_fragment(input: &DeriveInput) -> Result<Fragment, Error> {
    match derive_display(input)?.body {
        Body::Product(f) => Ok(f),
        Body::Sum(_) => panic!("a product type gives one fragment"),
    }
}

#[test]
fn unit_shape_renders_lowercased_identifier() {
    let input = product("Loading", vec![], Fields::Unit);
    let out = derive_display(&input).unwrap();
    assert_eq!(out.trait_name, "Display");
    assert_eq!(out.ty_name, "Loading");
    assert_eq!(
        out.body,
        Body::Product(Fragment::Unit {
            prefix: "let Self".to_string(),
            midfix: "= self;".to_string(),
            format: "{}".to_string(),
            name: "loading".to_string(),
        })
    );
}

#[test]
fn unit_shape_takes_its_format() {
    let input = product("Done", vec![attr("display", vec![kv("format", 2, "<{}>", 3)])], Fields::Unit);
    assert_eq!(
        display_fragment(&input).unwrap(),
        Fragment::Unit {
            prefix: "let Self".to_string(),
            midfix: "= self;".to_string(),
            format: "<{}>".to_string(),
            name: "done".to_string(),
        }
    );
}

#[test]
fn unit_shape_rejects_ignore() {
    let input = product("Done", vec![attr("display", vec![kv("ignore", 2, "a", 3)])], Fields::Unit);
    assert_eq!(display_fragment(&input), Err(report(&[(2, "unknown attribute argument")])));
}

#[test]
fn sum_of_unit_and_single_positional() {
    let input = DeriveInput {
        ident: ident("State", 1),
        attrs: vec![],
        data: Data::Enum(vec![
            Variant { ident: ident("Idle", 2), attrs: vec![], fields: Fields::Unit },
            Variant {
                ident: ident("Busy", 3),
                attrs: vec![],
                fields: Fields::Unnamed(vec![unnamed(4, vec![])]),
            },
        ]),
    };
    let out = derive_display(&input).unwrap();
    assert_eq!(
        out.body,
        Body::Sum(vec![
            Fragment::Unit {
                prefix: "Self::Idle".to_string(),
                midfix: "=>".to_string(),
                format: "{}".to_string(),
                name: "idle".to_string(),
            },
            Fragment::Positional {
                prefix: "Self::Busy".to_string(),
                midfix: "=>".to_string(),
                pattern: vec![bind("f0")],
                format: "{}".to_string(),
                args: vec![plain("f0")],
            },
        ])
    );
}

#[test]
fn positional_ignore_discards_the_position() {
    let input = product(
        "Triple",
        vec![attr("display", vec![kv("ignore", 2, "1", 3)])],
        Fields::Unnamed(vec![unnamed(4, vec![]), unnamed(5, vec![]), unnamed(6, vec![])]),
    );
    assert_eq!(
        display_fragment(&input).unwrap(),
        Fragment::Positional {
            prefix: "let Self".to_string(),
            midfix: "= self;".to_string(),
            pattern: vec![bind("f0"), skip("f1"), bind("f2")],
            format: "{}".to_string(),
            args: vec![plain("f0"), plain("f2")],
        }
    );
}

#[test]
fn positional_without_fields_keeps_default_template() {
    let input = product("Empty", vec![], Fields::Unnamed(vec![]));
    assert_eq!(
        display_fragment(&input).unwrap(),
        Fragment::Positional {
            prefix: "let Self".to_string(),
            midfix: "= self;".to_string(),
            pattern: vec![],
            format: "{}".to_string(),
            args: vec![],
        }
    );
}

#[test]
fn positional_ignore_list_is_split_and_trimmed() {
    let input = product(
        "Many",
        vec![attr("display", vec![kv("ignore", 2, " 0 , 11", 3), kv("format", 4, "{}-{}", 5)])],
        Fields::Unnamed((0..12).map(|i| unnamed(10 + i, vec![])).collect()),
    );
    match display_fragment(&input).unwrap() {
        Fragment::Positional { pattern, format, args, .. } => {
            assert_eq!(format, "{}-{}");
            assert_eq!(pattern.len(), 12);
            assert_eq!(pattern[0], skip("f0"));
            assert_eq!(pattern[10], bind("f10"));
            assert_eq!(pattern[11], skip("f11"));
            assert_eq!(args.len(), 10);
            assert_eq!(args[0], plain("f1"));
            assert_eq!(args[9], plain("f10"));
        }
        other => panic!("unexpected fragment {:?}", other),
    }
}

#[test]
fn positional_field_format_wraps_the_value() {
    let input = product(
        "Wrap",
        vec![],
        Fields::Unnamed(vec![unnamed(4, vec![attr("display", vec![kv("format", 5, "[{}]", 6)])])]),
    );
    assert_eq!(
        display_fragment(&input).unwrap(),
        Fragment::Positional {
            prefix: "let Self".to_string(),
            midfix: "= self;".to_string(),
            pattern: vec![bind("f0")],
            format: "{}".to_string(),
            args: vec![Arg { name: "f0".to_string(), format: Some("[{}]".to_string()), concat: false }],
        }
    );
}

#[test]
fn positional_field_rejects_mode() {
    let input = product(
        "Wrap",
        vec![],
        Fields::Unnamed(vec![unnamed(4, vec![attr("display", vec![kv("mode", 5, "iter_concat", 6)])])]),
    );
    assert_eq!(display_fragment(&input), Err(report(&[(5, "unknown attribute argument")])));
}

#[test]
fn positional_ignore_must_hold_indices() {
    let input = product(
        "Pair",
        vec![attr("display", vec![kv("ignore", 2, "0,x", 3)])],
        Fields::Unnamed(vec![unnamed(4, vec![]), unnamed(5, vec![])]),
    );
    assert_eq!(
        display_fragment(&input),
        Err(report(&[(3, "Failed to parse index in attribute ignore: invalid digit found in string")]))
    );
}

#[test]
fn positional_empty_ignore_is_no_index() {
    let input = product(
        "Pair",
        vec![attr("display", vec![kv("ignore", 2, "", 3)])],
        Fields::Unnamed(vec![unnamed(4, vec![])]),
    );
    assert_eq!(
        display_fragment(&input),
        Err(report(&[(3, "Failed to parse index in attribute ignore: cannot parse integer from empty string")]))
    );
}

#[test]
fn named_single_field_is_rendered_alone() {
    let input = product("One", vec![], Fields::Named(vec![named("inner", 4, vec![])]));
    assert_eq!(
        display_fragment(&input).unwrap(),
        Fragment::Single { pattern: vec![bind("inner")], arg: plain("inner") }
    );
}

#[test]
fn named_single_kept_field_among_ignored_is_rendered_alone() {
    let input = product(
        "One",
        vec![attr("display", vec![kv("ignore", 2, "a, c", 3)])],
        Fields::Named(vec![named("a", 4, vec![]), named("b", 5, vec![]), named("c", 6, vec![])]),
    );
    assert_eq!(
        display_fragment(&input).unwrap(),
        Fragment::Single { pattern: vec![skip("a"), bind("b"), skip("c")], arg: plain("b") }
    );
}

#[test]
fn named_many_fields_need_a_format() {
    let input = product(
        "Two",
        vec![],
        Fields::Named(vec![named("a", 4, vec![]), named("b", 5, vec![])]),
    );
    assert_eq!(
        display_fragment(&input),
        Err(report(&[(1, "Missing #[format(...)] for struct with multiple fields")]))
    );
}

#[test]
fn named_no_kept_field_needs_a_format() {
    let input = product(
        "Zero",
        vec![attr("display", vec![kv("ignore", 2, "a", 3)])],
        Fields::Named(vec![named("a", 4, vec![])]),
    );
    assert_eq!(
        display_fragment(&input),
        Err(report(&[(1, "Missing #[format(...)] for struct with multiple fields")]))
    );
}

#[test]
fn named_format_substitutes_every_kept_field() {
    let input = product(
        "Point",
        vec![attr("display", vec![kv("format", 2, "{x}/{y}", 3), kv("ignore", 4, " z ", 5)])],
        Fields::Named(vec![
            named("x", 6, vec![]),
            named("y", 7, vec![attr("display", vec![kv("format", 8, "{:02}", 9)])]),
            named("z", 10, vec![]),
        ]),
    );
    assert_eq!(
        display_fragment(&input).unwrap(),
        Fragment::Named {
            prefix: "let Self".to_string(),
            midfix: "= self;".to_string(),
            pattern: vec![bind("x"), bind("y"), skip("z")],
            format: "{x}/{y}".to_string(),
            args: vec![
                plain("x"),
                Arg { name: "y".to_string(), format: Some("{:02}".to_string()), concat: false },
            ],
        }
    );
}

#[test]
fn named_iter_concat_renders_each_element_through_the_field_format() {
    let input = product(
        "List",
        vec![],
        Fields::Named(vec![named(
            "items",
            4,
            vec![attr("display", vec![kv("mode", 5, "iter_concat", 6), kv("format", 7, "<{}>", 8)])],
        )]),
    );
    assert_eq!(
        display_fragment(&input).unwrap(),
        Fragment::Single {
            pattern: vec![bind("items")],
            arg: Arg { name: "items".to_string(), format: Some("<{}>".to_string()), concat: true },
        }
    );
}

#[test]
fn named_iter_concat_without_format_renders_elements_directly() {
    let input = product(
        "List",
        vec![],
        Fields::Named(vec![named("items", 4, vec![attr("display", vec![kv("mode", 5, "iter_concat", 6)])])]),
    );
    assert_eq!(
        display_fragment(&input).unwrap(),
        Fragment::Single {
            pattern: vec![bind("items")],
            arg: Arg { name: "items".to_string(), format: None, concat: true },
        }
    );
}

#[test]
fn named_mode_self_renders_the_whole_value() {
    let input = product(
        "Whole",
        vec![attr("display", vec![kv("mode", 2, "self", 3)])],
        Fields::Named(vec![named("a", 4, vec![]), named("b", 5, vec![])]),
    );
    assert_eq!(display_fragment(&input).unwrap(), Fragment::Whole { format: "{self}".to_string() });
    let input = product(
        "Whole",
        vec![attr("display", vec![kv("mode", 2, "self", 3), kv("format", 4, "<{self:?}>", 5)])],
        Fields::Named(vec![named("a", 6, vec![attr("display", vec![kv("bogus", 7, "x", 8)])])]),
    );
    assert_eq!(display_fragment(&input).unwrap(), Fragment::Whole { format: "<{self:?}>".to_string() });
}

#[test]
fn named_unknown_shape_mode_is_an_error() {
    let input = product(
        "Odd",
        vec![attr("display", vec![kv("mode", 2, "wh\"ole", 3)])],
        Fields::Named(vec![named("a", 4, vec![])]),
    );
    assert_eq!(display_fragment(&input), Err(report(&[(3, "Unknown mode \"wh\\\"ole\"")])));
}

#[test]
fn named_unknown_field_mode_is_an_error() {
    let input = product(
        "Odd",
        vec![],
        Fields::Named(vec![named("a", 4, vec![attr("display", vec![kv("mode", 5, "self", 6)])])]),
    );
    assert_eq!(display_fragment(&input), Err(report(&[(6, "Unknown mode Some(\"self\")")])));
}

#[test]
fn named_ignored_field_annotations_are_still_resolved() {
    let input = product(
        "Strict",
        vec![attr("display", vec![kv("ignore", 2, "a", 3), kv("format", 4, "{b}", 5)])],
        Fields::Named(vec![
            named("a", 6, vec![attr("display", vec![kv("ignore", 7, "x", 8)])]),
            named("b", 9, vec![]),
        ]),
    );
    assert_eq!(display_fragment(&input), Err(report(&[(7, "unknown attribute argument")])));
}

#[test]
fn duplicate_key_reports_both_places() {
    let input = product(
        "Twice",
        vec![attr("display", vec![kv("format", 2, "a", 3), kv("format", 4, "b", 5)])],
        Fields::Unit,
    );
    assert_eq!(
        display_fragment(&input),
        Err(report(&[(5, "Duplicate attribute for format 1"), (3, "Duplicate attribute for format 2")]))
    );
}

#[test]
fn duplicate_key_across_annotations_of_one_list_reports_both_places() {
    let attrs = vec![
        attr("display", vec![kv("format", 2, "a", 3)]),
        attr("doc", vec![kv("format", 9, "zzz", 9)]),
        attr("display", vec![kv("format", 4, "b", 5)]),
    ];
    let r = Attrs::new_with(sp(1), &attrs, "display", &["format"]);
    assert_eq!(
        r.err(),
        Some(report(&[(5, "Duplicate attribute for format 1"), (3, "Duplicate attribute for format 2")]))
    );
}

#[test]
fn same_key_at_type_and_field_scope_is_no_duplicate() {
    let input = product(
        "Scoped",
        vec![attr("display", vec![kv("format", 2, "({v})", 3)])],
        Fields::Named(vec![named("v", 4, vec![attr("display", vec![kv("format", 5, "{:x}", 6)])])]),
    );
    assert_eq!(
        display_fragment(&input).unwrap(),
        Fragment::Named {
            prefix: "let Self".to_string(),
            midfix: "= self;".to_string(),
            pattern: vec![bind("v")],
            format: "({v})".to_string(),
            args: vec![Arg { name: "v".to_string(), format: Some("{:x}".to_string()), concat: false }],
        }
    );
}

#[test]
fn variant_annotations_override_those_of_the_type() {
    let input = DeriveInput {
        ident: ident("State", 1),
        attrs: vec![attr("display", vec![kv("format", 2, "<{}>", 3)])],
        data: Data::Enum(vec![
            Variant { ident: ident("On", 4), attrs: vec![], fields: Fields::Unit },
            Variant {
                ident: ident("Off", 5),
                attrs: vec![attr("display", vec![kv("format", 6, "[{}]", 7)])],
                fields: Fields::Unit,
            },
        ]),
    };
    match derive_display(&input).unwrap().body {
        Body::Sum(arms) => {
            assert_eq!(
                arms,
                vec![
                    Fragment::Unit {
                        prefix: "Self::On".to_string(),
                        midfix: "=>".to_string(),
                        format: "<{}>".to_string(),
                        name: "on".to_string(),
                    },
                    Fragment::Unit {
                        prefix: "Self::Off".to_string(),
                        midfix: "=>".to_string(),
                        format: "[{}]".to_string(),
                        name: "off".to_string(),
                    },
                ]
            );
        }
        Body::Product(_) => panic!("a sum type gives arms"),
    }
}

#[test]
fn first_failing_variant_ends_generation() {
    let input = DeriveInput {
        ident: ident("State", 1),
        attrs: vec![],
        data: Data::Enum(vec![
            Variant { ident: ident("On", 4), attrs: vec![], fields: Fields::Unit },
            Variant {
                ident: ident("Pair", 5),
                attrs: vec![],
                fields: Fields::Named(vec![named("a", 6, vec![]), named("b", 7, vec![])]),
            },
        ]),
    };
    assert_eq!(
        derive_display(&input).err(),
        Some(report(&[(5, "Missing #[format(...)] for struct with multiple fields")]))
    );
}

#[test]
fn union_is_not_supported() {
    let input = DeriveInput { ident: ident("Raw", 1), attrs: vec![], data: Data::Union(sp(9)) };
    assert_eq!(derive_display(&input).err(), Some(report(&[(9, "not supported")])));
    assert_eq!(derive_debug(&input).err(), Some(report(&[(9, "not supported")])));
}

#[test]
fn each_flavor_reads_its_own_marker() {
    let input = product(
        "Both",
        vec![
            attr("display", vec![kv("format", 2, "d:{}", 3)]),
            attr("debug", vec![kv("bogus", 4, "x", 5)]),
        ],
        Fields::Unit,
    );
    let shown = derive_display(&input).unwrap();
    assert_eq!(shown.trait_name, "Display");
    assert_eq!(
        shown.body,
        Body::Product(Fragment::Unit {
            prefix: "let Self".to_string(),
            midfix: "= self;".to_string(),
            format: "d:{}".to_string(),
            name: "both".to_string(),
        })
    );
    assert_eq!(derive_debug(&input).err(), Some(report(&[(4, "unknown attribute argument")])));
    let custom = derive_debug_or_display(&input, "Debug", "other").unwrap();
    assert_eq!(custom.trait_name, "Debug");
    assert_eq!(custom.ty_name, "Both");
}

#[test]
fn generation_is_repeatable() {
    let input = product(
        "Point",
        vec![attr("display", vec![kv("format", 2, "{x}/{y}", 3)])],
        Fields::Named(vec![named("x", 6, vec![]), named("y", 7, vec![])]),
    );
    assert_eq!(derive_display(&input), derive_display(&input.clone()));
    let bad = product("Bad", vec![attr("display", vec![kv("nope", 2, "", 3)])], Fields::Unit);
    assert_eq!(derive_display(&bad), derive_display(&bad.clone()));
}

#[test]
fn unknown_key_is_rejected_in_every_scope() {
    let lists = vec![attr("display", vec![kv("colour", 2, "red", 3)])];
    for fields in [
        Fields::Unit,
        Fields::Unnamed(vec![unnamed(4, vec![])]),
        Fields::Named(vec![named("a", 5, vec![])]),
    ] {
        let input = product("Any", lists.clone(), fields);
        assert_eq!(display_fragment(&input), Err(report(&[(2, "unknown attribute argument")])));
    }
    let on_field = product("Any", vec![], Fields::Named(vec![named("a", 5, lists.clone())]));
    assert_eq!(display_fragment(&on_field), Err(report(&[(2, "unknown attribute argument")])));
    let on_position = product("Any", vec![], Fields::Unnamed(vec![unnamed(4, lists.clone())]));
    assert_eq!(display_fragment(&on_position), Err(report(&[(2, "unknown attribute argument")])));
}

#[test]
fn entries_that_are_no_key_value_pair_are_rejected() {
    let keys: &[&str] = &["format"];
    let path = vec![attr("display", vec![Meta::Path { span: sp(2) }])];
    assert_eq!(Attrs::new_with(sp(1), &path, "display", keys).err(), Some(report(&[(2, "path not supported")])));
    let list = vec![attr("display", vec![Meta::List { span: sp(3) }])];
    assert_eq!(Attrs::new_with(sp(1), &list, "display", keys).err(), Some(report(&[(3, "list not supported")])));
    let lit = vec![attr("display", vec![Meta::Lit { span: sp(4) }])];
    assert_eq!(Attrs::new_with(sp(1), &lit, "display", keys).err(), Some(report(&[(4, "lit not supported")])));
    let number = vec![attr(
        "display",
        vec![Meta::NameValue { path: "format".to_string(), path_span: sp(5), value: None, value_span: sp(6) }],
    )];
    assert_eq!(
        Attrs::new_with(sp(1), &number, "display", keys).err(),
        Some(report(&[(6, "expected string literal")]))
    );
    let unknown_first = vec![attr(
        "display",
        vec![Meta::NameValue { path: "other".to_string(), path_span: sp(5), value: None, value_span: sp(6) }],
    )];
    assert_eq!(
        Attrs::new_with(sp(1), &unknown_first, "display", keys).err(),
        Some(report(&[(5, "unknown attribute argument")]))
    );
}

#[test]
fn unreadable_annotation_gives_its_own_error() {
    let broken = report(&[(7, "unexpected token")]);
    let attrs = vec![
        Attribute { name: "other".to_string(), args: Args::Malformed(report(&[(8, "skipped")])) },
        Attribute { name: "display".to_string(), args: Args::Malformed(broken.clone()) },
        attr("display", vec![Meta::Path { span: sp(2) }]),
    ];
    assert_eq!(Attrs::new_with(sp(1), &attrs, "display", &["format"]).err(), Some(broken));
}

#[test]
fn store_lookups() {
    let attrs = vec![
        attr("doc", vec![Meta::Lit { span: sp(9) }]),
        attr("display", vec![kv("format", 2, "{}", 3)]),
        attr("display", vec![kv("ignore", 4, "a,b", 5)]),
    ];
    let store = Attrs::new_with(sp(1), &attrs, "display", &["format", "ignore", "mode"]).unwrap();
    assert_eq!(store.opt("format"), Some("{}"));
    assert_eq!(store.opt("ignore"), Some("a,b"));
    assert_eq!(store.opt("mode"), None);
    assert_eq!(store.get("mode", "plain"), "plain");
    assert_eq!(store.get("format", "plain"), "{}");
    assert_eq!(store.span("format"), sp(3));
    assert_eq!(store.span("ignore"), sp(5));
    assert_eq!(store.span("mode"), sp(1));
}

#[test]
fn merged_store_overrides_and_inherits() {
    let outer = vec![attr("display", vec![kv("format", 2, "outer", 3), kv("ignore", 4, "a", 5)])];
    let inner = vec![attr("display", vec![kv("format", 6, "inner", 7)])];
    let store = Attrs::new_with(sp(1), &outer, "display", &["format", "ignore"]).unwrap();
    let merged = store.to_merged(&inner).unwrap();
    assert_eq!(merged.get("format", ""), "inner");
    assert_eq!(merged.span("format"), sp(7));
    assert_eq!(merged.get("ignore", ""), "a");
    assert_eq!(merged.span("mode"), sp(1));
    assert_eq!(store.get("format", ""), "outer");
    let twice = vec![attr("display", vec![kv("ignore", 6, "x", 7), kv("ignore", 8, "y", 9)])];
    assert_eq!(
        store.to_merged(&twice).err(),
        Some(report(&[(9, "Duplicate attribute for ignore 1"), (7, "Duplicate attribute for ignore 2")]))
    );
}

#[test]
fn fresh_store_keeps_marker_and_drops_entries() {
    let outer = vec![attr("display", vec![kv("format", 2, "outer", 3)])];
    let store = Attrs::new_with(sp(1), &outer, "display", &["format"]).unwrap();
    let fresh = store.to_new(&[]).unwrap();
    assert_eq!(fresh.opt("format"), None);
    assert_eq!(fresh.span("format"), sp(1));
    let field = vec![attr("display", vec![kv("mode", 4, "iter_concat", 5)])];
    assert!(store.to_new(&field).is_err());
    let narrowed = store.to_new_with(sp(6), &field, &["format", "mode"]).unwrap();
    assert_eq!(narrowed.opt("mode"), Some("iter_concat"));
    assert_eq!(narrowed.opt("format"), None);
    assert_eq!(narrowed.span("format"), sp(6));
}

#[test]
fn errors_combine_in_order() {
    let mut a = Error::new(sp(1), "first".to_string());
    a.combine(report(&[(2, "second"), (3, "third")]));
    assert_eq!(a, report(&[(1, "first"), (2, "second"), (3, "third")]));
    assert_eq!(Error::at(sp(4), "x"), report(&[(4, "x")]));
    assert_eq!(a.duplicate(), a);
}

#[test]
fn generator_is_usable_directly() {
    let name = ident("Mixed", 1);
    let outer = vec![attr("debug", vec![kv("format", 2, "{}!", 3)])];
    let lists: Vec<&[Attribute]> = vec![&outer];
    let gen = StructGen {
        ident: &name,
        attrs: &lists,
        attr_name: "debug",
        prefix: "let Self".to_string(),
        midfix: "= self;".to_string(),
    };
    assert_eq!(
        gen.generate(&Fields::Unit).unwrap(),
        Fragment::Unit {
            prefix: "let Self".to_string(),
            midfix: "= self;".to_string(),
            format: "{}!".to_string(),
            name: "mixed".to_string(),
        }
    );
    assert_eq!(gen.make_attrs(&["format"]).unwrap().opt("format"), Some("{}!"));
    assert_eq!(
        gen.generate_named(&[named("a", 4, vec![]), named("b", 5, vec![])]).unwrap(),
        Fragment::Named {
            prefix: "let Self".to_string(),
            midfix: "= self;".to_string(),
            pattern: vec![bind("a"), bind("b")],
            format: "{}!".to_string(),
            args: vec![plain("a"), plain("b")],
        }
    );
    assert_eq!(
        gen.generate_unnamed(&[unnamed(4, vec![])]).unwrap(),
        Fragment::Positional {
            prefix: "let Self".to_string(),
            midfix: "= self;".to_string(),
            pattern: vec![bind("f0")],
            format: "{}!".to_string(),
            args: vec![plain("f0")],
        }
    );
    assert!(gen.generate_unit().is_ok());
}

#[test]
fn split_keeps_empty_pieces() {
    assert_eq!(split_commas(""), vec![""]);
    assert_eq!(split_commas("a"), vec!["a"]);
    assert_eq!(split_commas("a,b"), vec!["a", "b"]);
    assert_eq!(split_commas(",a,,b,"), vec!["", "a", "", "b", ""]);
    assert_eq!(split_commas("é,ü x"), vec!["é", "ü x"]);
    let same_as_std: Vec<&str> = " 1, 2 ,3".split(',').collect();
    assert_eq!(split_commas(" 1, 2 ,3"), same_as_std);
}

#[test]
fn join_puts_the_separator_between() {
    let none: [&str; 0] = [];
    assert_eq!(DisplayJoin(&none[..], ", ").render(), "");
    assert_eq!(DisplayJoin(&["a"][..], ", ").render(), "a");
    assert_eq!(DisplayJoin(&["a", "b", "c"][..], ", ").render(), "a, b, c");
    assert_eq!(DisplayJoin(&["", ""][..], "-").render(), "-");
}

#[test]
fn named_ignore_names_are_trimmed() {
    let input = product(
        "Trim",
        vec![attr("display", vec![kv("ignore", 2, "\ta ,\n b", 3)])],
        Fields::Named(vec![named("a", 4, vec![]), named("b", 5, vec![]), named("a b", 6, vec![])]),
    );
    assert_eq!(
        display_fragment(&input).unwrap(),
        Fragment::Single { pattern: vec![skip("a"), skip("b"), bind("a b")], arg: plain("a b") }
    );
}

#[test]
fn positional_index_too_large_is_reported() {
    let input = product(
        "Big",
        vec![attr("display", vec![kv("ignore", 2, "99999999999999999999999999", 3)])],
        Fields::Unnamed(vec![unnamed(4, vec![])]),
    );
    assert_eq!(
        display_fragment(&input),
        Err(report(&[(3, "Failed to parse index in attribute ignore: number too large to fit in target type")]))
    );
}
