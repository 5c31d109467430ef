use typaxis::math_arith::{round_ratio, MathComputationError, MathFontError};
use typaxis::math_compute::{compute_math, MathComputationReceipt};
use typaxis::math_font::{MathConstants, MathFontFace, MathFontGlyph, MathGlyphVariant, MathGlyphVariants};
use typaxis::math_paint::{math_vector_fingerprint, MathPaint, OriginalGlyphId};
use typaxis::math_receipt::parse_math_source;
use typaxis::math_source::{MathNodeKind, MathParseLimits, MathSourceErrorKind};
use typaxis::math_work::{required_math_layout_units, MathComputationInput};

fn limits() -> MathParseLimits {
    MathParseLimits::new(1_000, 64).unwrap()
}

fn glyph(unicode: char, gid: u16, advance_width: u16, italic_correction: i16, height: u16) -> MathFontGlyph {
    MathFontGlyph {
        unicode,
        gid: OriginalGlyphId::new(gid),
        advance_width,
        italic_correction,
        height,
    }
}

/// A small face: the summation sign and the radical sign have a taller
/// display variant, glyph 2, whose metrics sit under a private-use code.
fn face() -> MathFontFace {
    let constants = MathConstants {
        script_percent_scale_down: 80,
        script_script_percent_scale_down: 60,
        display_operator_min_height: 1500,
        axis_height: 250,
        subscript_shift_down: 150,
        subscript_top_max: 400,
        subscript_baseline_drop_min: 50,
        superscript_shift_up: 350,
        superscript_shift_up_cramped: 300,
        superscript_bottom_min: 100,
        superscript_baseline_drop_max: 250,
        sub_superscript_gap_min: 150,
        superscript_bottom_max_with_subscript: 400,
        space_after_script: 40,
        fraction_numerator_shift_up: 400,
        fraction_numerator_display_shift_up: 650,
        fraction_denominator_shift_down: 350,
        fraction_denominator_display_shift_down: 650,
        fraction_numerator_gap_min: 40,
        fraction_numerator_display_gap_min: 120,
        fraction_rule_thickness: 40,
        fraction_denominator_gap_min: 40,
        fraction_denominator_display_gap_min: 120,
        radical_vertical_gap: 50,
        radical_display_vertical_gap: 150,
        radical_rule_thickness: 40,
    };
    MathFontFace {
        units_per_em: 1000,
        ascent: 800,
        descent: -200,
        constants,
        glyphs: vec![
            glyph('\u{2211}', 1, 900, 0, 1000),
            glyph('\u{221A}', 3, 600, 0, 900),
            glyph('x', 4, 500, 20, 450),
            glyph('2', 5, 500, 0, 700),
            glyph('+', 6, 600, 0, 600),
            glyph('\u{2211}', 9, 100, 0, 100),
            glyph('y', 10, 480, 10, 450),
            glyph('1', 7, 500, 0, 700),
            glyph('\u{E000}', 2, 1100, 0, 2000),
        ],
        variants: vec![
            MathGlyphVariants {
                base: OriginalGlyphId::new(1),
                variants: vec![MathGlyphVariant { gid: OriginalGlyphId::new(2), advance: 2000 }],
            },
            MathGlyphVariants {
                base: OriginalGlyphId::new(3),
                variants: vec![MathGlyphVariant { gid: OriginalGlyphId::new(2), advance: 2000 }],
            },
        ],
        math_table_fingerprint: [7; 32],
    }
}

fn glyph_paints(receipt: &MathComputationReceipt) -> Vec<typaxis::math_paint::MathGlyphPaint> {
    receipt
        .paints()
        .iter()
        .filter_map(|paint| match paint {
            MathPaint::Glyph(glyph) => Some(*glyph),
            MathPaint::Rule(_) => None,
        })
        .collect()
}

#[test]
fn parser_and_formatter_round_trip_closed_grammar() {
    for source in [
        "x^{2}",
        "x\n+\n1",
        "x^2_1",
        "\\frac{x+1}{y-2}",
        "\\sqrt{x}",
        "\\operator{sin} x",
        "α+β=γ",
        "1.25+.5",
    ] {
        let parsed = parse_math_source(source, limits()).unwrap();
        parsed.verify().unwrap();
        assert!(!parsed.canonical_source().is_empty());
        assert_ne!(parsed.ast_fingerprint(), [0; 32]);
    }
    let ordered = parse_math_source("x^2_1", limits()).unwrap();
    assert_eq!(ordered.canonical_source(), "x_1^2");
    assert_eq!(
        parse_math_source("x\n+\n1", limits()).unwrap().canonical_source(),
        "x+1"
    );
    assert_eq!(
        parse_math_source(". 5", limits()).unwrap().canonical_source(),
        ". 5"
    );
}

#[test]
fn parser_rejects_macros_controls_empty_and_duplicate_scripts() {
    for source in ["", "{}", "x^^2", "x^2^3", "\\unknown{x}", "01", "x\t+1", "$x$"] {
        assert!(parse_math_source(source, limits()).is_err(), "{source:?}");
    }
}

#[test]
fn parser_enforces_inclusive_node_and_depth_limits() {
    let parsed = parse_math_source("x", limits()).unwrap();
    assert!(parse_math_source(
        "x",
        MathParseLimits::new(parsed.ast_node_count(), parsed.ast_depth()).unwrap()
    )
    .is_ok());
    assert_eq!(
        parse_math_source(
            "x",
            MathParseLimits::new(parsed.ast_node_count() - 1, parsed.ast_depth()).unwrap()
        )
        .unwrap_err()
        .kind(),
        MathSourceErrorKind::NodeLimit
    );
    assert_eq!(
        parse_math_source(
            "x",
            MathParseLimits::new(parsed.ast_node_count(), parsed.ast_depth() - 1).unwrap()
        )
        .unwrap_err()
        .kind(),
        MathSourceErrorKind::DepthLimit
    );
}

#[test]
fn math_layout_work_limit_is_inclusive_and_does_not_reparse_on_receipt_reuse() {
    let face = face();
    let parsed = parse_math_source("x^{2}", limits()).unwrap();
    let unbounded = compute_math(
        &parsed,
        &face,
        MathComputationInput::new(MathNodeKind::Inline, 12 * 65_536, u64::MAX).unwrap(),
    )
    .unwrap();
    let exact = unbounded.layout_work();
    assert_eq!(
        compute_math(
            &parsed,
            &face,
            MathComputationInput::new(MathNodeKind::Inline, 12 * 65_536, exact).unwrap(),
        )
        .unwrap()
        .layout_work(),
        exact
    );
    assert_eq!(
        compute_math(
            &parsed,
            &face,
            MathComputationInput::new(MathNodeKind::Inline, 12 * 65_536, exact - 1).unwrap(),
        )
        .unwrap_err(),
        MathComputationError::LayoutUnitLimit
    );
    parsed.verify().unwrap();
    parsed.verify().unwrap();
}

#[test]
fn math_layout_uses_math_scripts_fractions_radicals_and_display_variants() {
    let face = face();
    let compute = |source: &str, kind| {
        let parsed = parse_math_source(source, limits()).unwrap();
        compute_math(
            &parsed,
            &face,
            MathComputationInput::new(kind, 12 * 65_536, 1_000).unwrap(),
        )
        .unwrap()
    };

    let scripts = compute("x^{x^2}", MathNodeKind::Inline);
    let glyphs = glyph_paints(&scripts);
    assert_eq!(
        glyphs.iter().map(|glyph| glyph.font_size_raw()).collect::<Vec<_>>(),
        [
            12 * 65_536,
            round_ratio(12 * 65_536, 80, 100).unwrap(),
            round_ratio(12 * 65_536, 60, 100).unwrap(),
        ]
    );
    assert!(glyphs[1].x() > glyphs[0].advance());

    let fraction = compute("\\frac{x}{2}", MathNodeKind::Display);
    assert!(fraction
        .paints()
        .iter()
        .any(|paint| matches!(paint, MathPaint::Rule(_))));

    let radical = compute("\\sqrt{x}", MathNodeKind::Inline);
    assert!(radical.paints().iter().any(|paint| matches!(
        paint,
        MathPaint::Glyph(glyph) if glyph.unicode() == '√' && glyph.original_gid().get() == 2
    )));

    let inline_sum = compute("∑", MathNodeKind::Inline);
    let display_sum = compute("∑", MathNodeKind::Display);
    let first_gid = |receipt: &MathComputationReceipt| match &receipt.paints()[0] {
        MathPaint::Glyph(glyph) => glyph.original_gid().get(),
        MathPaint::Rule(_) => unreachable!(),
    };
    assert_eq!(first_gid(&inline_sum), 1);
    assert_eq!(first_gid(&display_sum), 2);
    assert!(display_sum.dimensions().ascent() > inline_sum.dimensions().ascent());
}

#[test]
fn required_units_count_nodes_boxes_and_paints() {
    // x^{2}: row, term, identifier, group, row, term, number = 7 nodes;
    // boxes: row 1 + term 1 + token 1 + group (group 1 + row 1 + term 1 + token 1) = 7;
    // paints: x and 2 = 2.
    let parsed = parse_math_source("x^{2}", limits()).unwrap();
    assert_eq!(parsed.ast_node_count(), 7);
    assert_eq!(required_math_layout_units(&parsed), Ok(16));
    let face = face();
    let receipt = compute_math(
        &parsed,
        &face,
        MathComputationInput::new(MathNodeKind::Inline, 12 * 65_536, 16).unwrap(),
    )
    .unwrap();
    assert_eq!(receipt.layout_work(), 16);
}

#[test]
fn computed_receipts_verify_and_bind_their_inputs() {
    let face = face();
    let parsed = parse_math_source("\\frac{x+1}{\\sqrt{y}}", limits()).unwrap();
    let receipt = compute_math(
        &parsed,
        &face,
        MathComputationInput::new(MathNodeKind::Display, 10 * 65_536, 10_000).unwrap(),
    )
    .unwrap();
    receipt.verify_sealed(&parsed, &face).unwrap();
    assert_eq!(receipt.parsed_fingerprint(), parsed.fingerprint());
    assert_eq!(receipt.math_table_fingerprint(), [7; 32]);
    assert_eq!(receipt.vector_fingerprint(), math_vector_fingerprint(receipt.paints()));
    let dims = receipt.dimensions();
    assert_eq!(dims.baseline(), dims.ascent());
    assert_eq!(dims.bbox(), (0, -dims.ascent(), dims.advance(), dims.descent()));
    // the axis is the face's axis height scaled to the size: 250/1000 of 10pt
    assert_eq!(dims.axis(), 250 * 10 * 65_536 / 1000);
    assert!(receipt.canonical_jcs().starts_with("{\"algorithm\":\"typaxis.math-layout/1\""));

    let other_face = MathFontFace { math_table_fingerprint: [8; 32], ..face.clone() };
    assert_eq!(
        receipt.verify_sealed(&parsed, &other_face),
        Err(MathComputationError::ReceiptMismatch)
    );
    let other = parse_math_source("x", limits()).unwrap();
    assert_eq!(
        receipt.verify_sealed(&other, &face),
        Err(MathComputationError::ReceiptMismatch)
    );
}

#[test]
fn missing_glyphs_and_variants_are_font_errors() {
    let face = face();
    let parsed = parse_math_source("z", limits()).unwrap();
    let input = MathComputationInput::new(MathNodeKind::Inline, 65_536, 1_000).unwrap();
    assert_eq!(
        compute_math(&parsed, &face, input).unwrap_err(),
        MathComputationError::Font(MathFontError::MissingGlyph)
    );
    let mut no_variants = face.clone();
    no_variants.variants.clear();
    let sum = parse_math_source("∑", limits()).unwrap();
    let display = MathComputationInput::new(MathNodeKind::Display, 65_536, 1_000).unwrap();
    assert_eq!(
        compute_math(&sum, &no_variants, display).unwrap_err(),
        MathComputationError::Font(MathFontError::MissingVariant)
    );
    assert_eq!(
        MathComputationError::from(MathFontError::MissingGlyph),
        MathComputationError::Font(MathFontError::MissingGlyph)
    );
}

#[test]
fn computation_inputs_need_positive_size_and_limit() {
    assert!(MathComputationInput::new(MathNodeKind::Inline, 0, 1).is_none());
    assert!(MathComputationInput::new(MathNodeKind::Inline, 1, 0).is_none());
    let input = MathComputationInput::new(MathNodeKind::Display, 5, 9).unwrap();
    assert_eq!(input.kind(), MathNodeKind::Display);
    assert_eq!(input.font_size_raw(), 5);
    assert_eq!(input.max_layout_units(), 9);
}

#[test]
fn rounding_is_to_nearest_with_ties_to_even() {
    assert_eq!(round_ratio(5, 1, 2), Ok(2));
    assert_eq!(round_ratio(7, 1, 2), Ok(4));
    assert_eq!(round_ratio(-5, 1, 2), Ok(-2));
    assert_eq!(round_ratio(-7, 1, 2), Ok(-4));
    assert_eq!(round_ratio(10, 2, 3), Ok(7));
    assert_eq!(round_ratio(1, 1, 0), Err(MathComputationError::ArithmeticOverflow));
    assert_eq!(round_ratio(i64::MAX, 2, 1), Err(MathComputationError::ArithmeticOverflow));
}

#[test]
fn vector_encoding_is_canonical() {
    let face = face();
    let parsed = parse_math_source("x", limits()).unwrap();
    let receipt = compute_math(
        &parsed,
        &face,
        MathComputationInput::new(MathNodeKind::Inline, 1000, 100).unwrap(),
    )
    .unwrap();
    assert_eq!(receipt.paints().len(), 1);
    let glyph = glyph_paints(&receipt)[0];
    assert_eq!(glyph.advance(), 500);
    assert_eq!(glyph.original_gid().get(), 4);
    assert_eq!(glyph.logical_ordinal(), 0);
    assert_eq!((glyph.x(), glyph.y()), (0, 0));
    assert_eq!(receipt.dimensions().ascent(), 800);
    assert_eq!(receipt.dimensions().descent(), 200);
    assert_eq!(receipt.dimensions().advance(), 500);
}

#[test]
fn parsed_receipt_recomputes_ast_accounting() {
    let parsed = parse_math_source("x^{2}", limits()).unwrap();
    let count = parsed.ast_node_count();
    let tampered = parsed.resealed_with_node_count(count + 1);
    assert_eq!(tampered.ast_node_count(), count + 1);
    assert_eq!(tampered.verify().unwrap_err().kind(), MathSourceErrorKind::ReceiptMismatch);
}

#[test]
fn resealing_the_true_node_count_still_verifies() {
    let parsed = parse_math_source("x^{2}", limits()).unwrap();
    let count = parsed.ast_node_count();
    let same = parsed.resealed_with_node_count(count);
    assert!(same.verify().is_ok());
}

#[test]
fn fraction_bar_spans_the_formula_on_the_math_axis() {
    let face = face();
    let parsed = parse_math_source("\\frac{x}{2}", limits()).unwrap();
    let receipt = compute_math(
        &parsed,
        &face,
        MathComputationInput::new(MathNodeKind::Display, 12 * 65_536, 1_000).unwrap(),
    )
    .unwrap();
    let rules: Vec<_> = receipt
        .paints()
        .iter()
        .filter_map(|paint| match paint {
            MathPaint::Rule(rule) => Some(*rule),
            MathPaint::Glyph(_) => None,
        })
        .collect();
    assert_eq!(rules.len(), 1);
    let rule = rules[0];
    assert_eq!(rule.x(), 0);
    assert_eq!(rule.width(), receipt.dimensions().advance());
    assert!(rule.width() > 0 && rule.height() >= 1);
    assert_eq!(rule.y(), -receipt.dimensions().axis() - rule.height() / 2);
}

#[test]
fn display_sum_is_laid_out_in_its_stretched_variant_box() {
    let face = face();
    let parsed = parse_math_source("∑", limits()).unwrap();
    let compute = |kind| {
        compute_math(
            &parsed,
            &face,
            MathComputationInput::new(kind, 12 * 65_536, 1_000).unwrap(),
        )
        .unwrap()
    };
    let inline = compute(MathNodeKind::Inline);
    assert_eq!(inline.dimensions().advance(), 707_789);
    assert_eq!(inline.dimensions().ascent(), 629_146);
    assert_eq!(inline.dimensions().descent(), 157_286);
    let display = compute(MathNodeKind::Display);
    assert_eq!(display.dimensions().advance(), 865_075);
    assert_eq!(display.dimensions().ascent(), 629_146 + 393_216);
    assert_eq!(display.dimensions().descent(), 157_286 + 393_216);
}

#[test]
fn display_fraction_of_symbols_is_placed_from_the_math_constants() {
    let face = face();
    let parsed = parse_math_source("\\frac{∑}{∑}", limits()).unwrap();
    let receipt = compute_math(
        &parsed,
        &face,
        MathComputationInput::new(MathNodeKind::Display, 12 * 65_536, 1_000).unwrap(),
    )
    .unwrap();
    assert_eq!(receipt.dimensions().advance(), 566_231 + 2 * 78_643);
    assert_eq!(receipt.dimensions().ascent(), 503_317 + 511_181);
    assert_eq!(receipt.dimensions().descent(), 125_829 + 511_181);
    let paints = receipt.paints();
    assert_eq!(paints.len(), 3);
    match (&paints[0], &paints[1], &paints[2]) {
        (MathPaint::Glyph(top), MathPaint::Rule(rule), MathPaint::Glyph(bottom)) => {
            assert_eq!((top.x(), top.y()), (78_643, -511_181));
            assert_eq!((bottom.x(), bottom.y()), (78_643, 511_181));
            assert_eq!(top.font_size_raw(), 629_146);
            assert_eq!(top.advance(), 566_231);
            assert_eq!((rule.x(), rule.y(), rule.width(), rule.height()), (0, -212_336, 723_517, 31_457));
        }
        _ => panic!("expected a glyph, a rule and a glyph"),
    }
}

#[test]
fn display_fraction_of_one_character_tokens_is_placed_from_the_math_constants() {
    let face = face();
    let parsed = parse_math_source("\\frac{x}{2}", limits()).unwrap();
    let receipt = compute_math(
        &parsed,
        &face,
        MathComputationInput::new(MathNodeKind::Display, 12 * 65_536, 1_000).unwrap(),
    )
    .unwrap();
    assert_eq!(receipt.dimensions().advance(), 314_573 + 2 * 78_643);
    assert_eq!(receipt.dimensions().ascent(), 503_317 + 511_181);
    assert_eq!(receipt.dimensions().descent(), 125_829 + 511_181);
    let paints = receipt.paints();
    assert_eq!(paints.len(), 3);
    match (&paints[0], &paints[1], &paints[2]) {
        (MathPaint::Glyph(top), MathPaint::Rule(rule), MathPaint::Glyph(bottom)) => {
            assert_eq!((top.unicode(), top.x(), top.y()), ('x', 78_643, -511_181));
            assert_eq!((bottom.unicode(), bottom.x(), bottom.y()), ('2', 78_643, 511_181));
            assert_eq!((rule.x(), rule.y(), rule.width(), rule.height()), (0, -212_336, 471_859, 31_457));
        }
        _ => panic!("expected a glyph, a rule and a glyph"),
    }
}
