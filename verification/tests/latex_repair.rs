use edgequake::latex_repair::{
    balance_double_brackets, balance_double_brackets_line, balance_math_delimiters,
    balance_math_delimiters_line, brace_single_token_scripts, escape_collision_table,
    is_math_like, reconstruct_escape_collisions, repair_latex, repair_missing_inner_bracket,
    repair_sample_dollar, strip_fake_latex_codefence, strip_ocr_math_boundary_artefacts,
};

#[test]
fn reconstructs_tab_text() {
    let corrupted = "$\\alpha \\leftarrow \text{Prg}(R,\\ell)$";
    let repaired = reconstruct_escape_collisions(corrupted);
    assert!(repaired.contains("\\text{Prg}"), "got: {repaired}");
    assert!(!repaired.contains('\t'));
}

#[test]
fn reconstructs_backspace_beta() {
    let corrupted = "$\u{0008}eta_i = m_i$";
    let repaired = reconstruct_escape_collisions(corrupted);
    assert_eq!(repaired, "$\\beta_i = m_i$");
}

#[test]
fn reconstructs_formfeed_frac() {
    let corrupted = "$\u{000C}rac{a}{b}$";
    let repaired = reconstruct_escape_collisions(corrupted);
    assert_eq!(repaired, "$\\frac{a}{b}$");
}

#[test]
fn preserves_real_tab_in_prose() {
    let input = "Step 1:\tdo this\nStep 2:\tdo that";
    let repaired = reconstruct_escape_collisions(input);
    assert_eq!(repaired, input);
}

#[test]
fn preserves_newlines_in_prose() {
    let input = "line one\nline two\nline three";
    let repaired = reconstruct_escape_collisions(input);
    assert_eq!(repaired, input);
}

#[test]
fn reconstructs_tab_textbf_greedy() {
    let corrupted = "$\textbf{bold}$";
    let repaired = reconstruct_escape_collisions(corrupted);
    assert!(repaired.contains("\\textbf{bold}"), "got: {repaired}");
}

#[test]
fn does_not_over_match_texture() {
    let corrupted = "$\texture$";
    let repaired = reconstruct_escape_collisions(corrupted);
    assert_eq!(
        repaired, corrupted,
        "must preserve 'texture', got: {repaired:?}"
    );
}

#[test]
fn reconstruct_is_idempotent() {
    let input = "$\text{Prg}$ and $\u{0008}eta$";
    let once = reconstruct_escape_collisions(input);
    let twice = reconstruct_escape_collisions(&once);
    assert_eq!(once, twice);
}

#[test]
fn repairs_mathbb_s_before_mathbb_z() {
    let corrupted = r"v_0, v_1 \leftarrow \mathbb{S} \mathbb{Z}_{2^{\ell}}^{2}";
    let repaired = repair_sample_dollar(corrupted);
    assert!(repaired.contains(r"\$"), "got: {repaired}");
    assert!(!repaired.contains(r"\mathbb{S}"));
}

#[test]
fn preserves_mathbb_s_in_regular_context() {
    let input = r"let $X = \mathbb{S}$ denote the set";
    let repaired = repair_sample_dollar(input);
    assert_eq!(repaired, input);
}

#[test]
fn mathbb_s_is_idempotent() {
    let input = r"v \leftarrow \mathbb{S} \mathbb{Z}_{p}";
    let once = repair_sample_dollar(input);
    let twice = repair_sample_dollar(&once);
    assert_eq!(once, twice);
}

#[test]
fn balances_missing_outer_open() {
    let input = r"$[[b]]^A \leftarrow \text{RSS.add}([v^*]]^A, [[\beta]]^A)$";
    let repaired = balance_double_brackets(input);
    assert!(repaired.contains("[[v^*]]"), "got: {repaired}");
}

#[test]
fn leaves_balanced_alone() {
    let input = r"[[x]]^A = [[y]]^A + [[z]]^A";
    assert_eq!(balance_double_brackets(input), input);
}

#[test]
fn balance_brackets_is_idempotent() {
    let input = r"$[v^*]]^A, [[\beta]]^A$";
    let once = balance_double_brackets(input);
    let twice = balance_double_brackets(&once);
    assert_eq!(once, twice);
}

#[test]
fn closes_orphan_inline_dollar() {
    let input = "text $a + b and more";
    let repaired = balance_math_delimiters(input);
    assert_eq!(repaired, "text $a + b and more$");
}

#[test]
fn does_not_auto_close_display_dollars() {
    let input = "text $$a + b and more";
    let repaired = balance_math_delimiters(input);
    assert_eq!(repaired, input);
}

#[test]
fn closes_multiline_display_block() {
    let input = "prose\n$$\na + b\n$$\nmore prose";
    assert_eq!(balance_math_delimiters(input), input);
}

#[test]
fn closing_dollar_dollar_after_content_line_unchanged() {
    let input = "prose\n$$\nx = y.$$\n\nnext";
    assert_eq!(balance_math_delimiters(input), input);
}

#[test]
fn leaves_balanced_dollars_alone() {
    let input = "some $inline$ and $$display$$ math";
    assert_eq!(balance_math_delimiters(input), input);
}

#[test]
fn ignores_escaped_dollar() {
    let input = r"price \$10 only";
    assert_eq!(balance_math_delimiters(input), input);
}

#[test]
fn delimiter_balance_is_idempotent() {
    let input = "text $a + b";
    let once = balance_math_delimiters(input);
    let twice = balance_math_delimiters(&once);
    assert_eq!(once, twice);
}

#[test]
fn braces_superscript_theta() {
    let input = r"$(-1)^\theta \cdot \alpha$";
    let repaired = brace_single_token_scripts(input);
    assert_eq!(repaired, r"$(-1)^{\theta} \cdot \alpha$");
}

#[test]
fn braces_subscript_alpha() {
    let input = r"$x_\alpha + y$";
    let repaired = brace_single_token_scripts(input);
    assert_eq!(repaired, r"$x_{\alpha} + y$");
}

#[test]
fn leaves_braced_scripts_alone() {
    let input = r"$x^{\theta} \cdot y_{\alpha}$";
    assert_eq!(brace_single_token_scripts(input), input);
}

#[test]
fn leaves_plain_char_scripts_alone() {
    let input = "$x^2 + y_i$";
    assert_eq!(brace_single_token_scripts(input), input);
}

#[test]
fn script_brace_is_idempotent() {
    let input = r"$x^\theta + y_\alpha$";
    let once = brace_single_token_scripts(input);
    let twice = brace_single_token_scripts(&once);
    assert_eq!(once, twice);
}

#[test]
fn repair_latex_is_idempotent() {
    let input = "$\text{Prg}(\u{0008}eta) + x^\theta$ and $v \\leftarrow \\mathbb{S} \\mathbb{Z}_p$ with $[v^*]]^A$ orphan $math ";
    let once = repair_latex(input);
    let twice = repair_latex(&once);
    assert_eq!(once, twice, "repair_latex must be idempotent");

    assert!(!once.contains('\t'), "no tab: {once:?}");
    assert!(!once.contains('\u{0008}'), "no backspace: {once:?}");
    assert!(once.contains(r"\text"), "reconstructed \\text: {once:?}");
    assert!(once.contains(r"\beta"), "reconstructed \\beta: {once:?}");
    assert!(once.contains("^{\\theta}"), "braced ^theta: {once:?}");
    assert!(
        !once.contains(r"\mathbb{S} \mathbb{Z}"),
        "mathbb-S removed: {once:?}"
    );
    assert!(once.contains("[[v^*]]"), "bracket balanced: {once:?}");
}

#[test]
fn fragmented_mathbb_s_is_repaired() {
    let input = r"$v_{0}, v_{1} \leftarrow$ $\mathbb{S}$ $\mathbb{Z}_{2^{\ell}}^{2}$";
    let out = repair_sample_dollar(input);
    assert_eq!(
        out,
        r"$v_{0}, v_{1} \leftarrow\$ \mathbb{Z}_{2^{\ell}}^{2}$"
    );
    assert_eq!(repair_sample_dollar(&out), out);
}

#[test]
fn contiguous_mathbb_s_still_works() {
    let input = r"$v \leftarrow \mathbb{S} \mathbb{Z}_p$";
    let out = repair_sample_dollar(input);
    assert!(out.contains(r"\$"), "got {out:?}");
    assert!(!out.contains(r"\mathbb{S}"), "got {out:?}");
}

#[test]
fn genuine_script_s_is_preserved() {
    let input = r"Let $\mathbb{S}$ be the set of all strategies.";
    assert_eq!(repair_sample_dollar(input), input);
}

#[test]
fn simple_missing_inner_bracket_repaired() {
    let out = repair_missing_inner_bracket(r"$$[[v]^A \leftarrow \text{X}$$");
    assert_eq!(out, r"$$[[v]]^A \leftarrow \text{X}$$");
    assert_eq!(repair_missing_inner_bracket(&out), out);
}

#[test]
fn indexed_missing_inner_bracket_repaired() {
    let out = repair_missing_inner_bracket(r"$$[[x[i]]^A \leftarrow \text{Y}$$");
    assert_eq!(out, r"$$[[x[i]]]^A \leftarrow \text{Y}$$");
    assert_eq!(repair_missing_inner_bracket(&out), out);
}

#[test]
fn balanced_double_bracket_untouched() {
    let input = r"$$[[v]]^A \leftarrow [[b]]^A$$";
    assert_eq!(repair_missing_inner_bracket(input), input);
}

#[test]
fn balanced_indexed_bracket_untouched() {
    let input = r"$$[[x[i]]]^A \leftarrow [[y[j]]]^B$$";
    assert_eq!(repair_missing_inner_bracket(input), input);
}

#[test]
fn strip_fake_latex_fence_round_trip() {
    let input = "before\n$$```latex\\\\$$\n[[v^*]]^A \\leftarrow X\\\\\n```$$$$\nafter";
    let out = strip_fake_latex_codefence(input);
    assert!(!out.contains("```latex"), "got {out:?}");
    assert!(!out.contains("$$$$"), "got {out:?}");
    assert_eq!(strip_fake_latex_codefence(&out), out);
}

#[test]
fn strip_fake_latex_fence_is_idempotent_on_clean_math() {
    let input = "$$\n\\beta_i = m_i \\oplus x_{i,2}\n$$";
    assert_eq!(strip_fake_latex_codefence(input), input);
}

#[test]
fn strip_fake_latex_fence_multiline_euston_variant() {
    let input =
        "prose\n\n$$```latex\\\n\\mu = \\frac{1}{n} \\sum_{i=1}^{n} x_i\\\\\n```$$\n\nmore";
    let out = strip_fake_latex_codefence(input);
    assert!(!out.contains("```latex"), "got: {out:?}");
    assert!(!out.contains("```$$"), "got: {out:?}");
    assert!(out.contains("$$\n\\mu"), "got: {out:?}");
    assert_eq!(strip_fake_latex_codefence(&out), out, "not idempotent");
}

#[test]
fn strip_fake_latex_fence_accepts_other_lang_tags() {
    for lang in ["latex", "mathematica", "text", "markdown", ""] {
        let input = format!("pre\n$$```{lang}\\\ncontent\n```$$\npost");
        let out = strip_fake_latex_codefence(&input);
        assert!(
            !out.contains("```"),
            "lang={lang} leftover backticks in: {out:?}"
        );
        assert!(out.contains("$$\ncontent\n$$"), "lang={lang} got: {out:?}");
    }
}

#[test]
fn strip_fake_math_open() {
    let out = strip_ocr_math_boundary_artefacts("text\n\n$$\\\\$$\n[[x]]^A = y");
    assert_eq!(out, "text\n\n$$\n[[x]]^A = y");
    assert_eq!(strip_ocr_math_boundary_artefacts(&out), out);
}

#[test]
fn strip_fake_math_close_three_dollars() {
    let out = strip_ocr_math_boundary_artefacts("content\\\\$$$\nprose");
    assert_eq!(out, "content$$\nprose");
}

#[test]
fn strip_fake_math_close_four_dollars() {
    let out = strip_ocr_math_boundary_artefacts("content\\\\$$$$\nprose");
    assert_eq!(out, "content$$\nprose");
}

#[test]
fn preserves_legitimate_latex_linebreak_before_close() {
    let input = "\\beta_i = m_i\\\\\n$$\n\nnext paragraph";
    assert_eq!(strip_ocr_math_boundary_artefacts(input), input);
}

#[test]
fn boundary_strip_idempotent_on_clean_math() {
    let input = "$$\n\\alpha + \\beta = \\gamma\n$$";
    assert_eq!(strip_ocr_math_boundary_artefacts(input), input);
}

#[test]
fn boundary_strip_end_to_end_on_b2a_line() {
    let input = "i.e.,\n\n$$\\\\$$\n[[x]]^{A} = \\sum ...\\\\$$$\n\nWhile this";
    let out = repair_latex(input);
    assert!(!out.contains("$$\\\\$$"), "open artefact gone: {out}");
    assert!(!out.contains("\\\\$$$"), "close artefact gone: {out}");
    assert_eq!(repair_latex(&out), out);
}

#[test]
fn mixed_missing_inner_plus_legitimate_single_bracket() {
    let input =
        r"$$[[v]^A \leftarrow \text{SS.add}([v]^A, \text{SS.sMul}(2^{\ell-1-i}, [x[i]]^A))$$";
    let out = repair_latex(input);
    assert!(out.contains("[[v]]^A"), "missing-inner fixed: {out}");
    assert!(
        out.contains("([v]^A"),
        "legitimate single `[v]` preserved: {out}"
    );
    assert!(
        !out.contains("([[v]^A"),
        "legitimate `[v]` not corrupted: {out}"
    );
    assert_eq!(repair_latex(&out), out);
}


#[test]
fn texts_at_rest_are_left_alone() {
    for t in [
        "",
        "plain prose, nothing else",
        "$x_{\\alpha}$ and $$y$$",
        "line one\nline two",
        "[[x]]^A = [[y]]^A",
    ] {
        assert_eq!(repair_latex(t), t);
    }
}

#[test]
fn line_ends_stay() {
    assert_eq!(balance_double_brackets("a\n\n"), "a\n\n");
    assert_eq!(balance_double_brackets("[v]]\n"), "[[v]]\n");
    assert_eq!(balance_math_delimiters("$a\n\n$b"), "$a$\n\n$b$");
    assert_eq!(balance_math_delimiters("$a\r\nb\r\r\n"), "$a$\nb\n");
    assert_eq!(balance_math_delimiters("a\r"), "a\r");
    assert_eq!(balance_math_delimiters(""), "");
    assert_eq!(balance_math_delimiters("\n"), "\n");
}

#[test]
fn a_line_that_ends_in_a_backslash_is_left_open() {
    assert_eq!(balance_math_delimiters("$a\\"), "$a\\");
    assert_eq!(balance_math_delimiters("$a\\\n$b"), "$a\\\n$b$");
    let line: Vec<char> = "$a\\".chars().collect();
    assert_eq!(balance_math_delimiters_line(&line, false), (line.clone(), false));
}

#[test]
fn a_restored_command_makes_line_ends_count() {
    assert_eq!(reconstruct_escape_collisions("\u{8}eta\neq x"), "\\beta\\neq x");
    assert_eq!(reconstruct_escape_collisions("prose\neq x"), "prose\neq x");
}

#[test]
fn passes_are_repeated_until_nothing_changes() {
    assert_eq!(repair_missing_inner_bracket("[[[v]^A"), "[[[v]]]^A");
    assert_eq!(strip_ocr_math_boundary_artefacts("$$\\$$\\$$"), "$$");
    assert_eq!(
        strip_fake_latex_codefence("$$```a\\$$```b\\$$"),
        "$$"
    );
}

#[test]
fn every_repair_is_idempotent() {
    let texts = [
        "",
        "\n",
        "a\n\n",
        "a\r\r\nb",
        "$a\\",
        "$a\\\r\n$b",
        "\u{8}eta\neq x",
        "\t\text\\\text",
        "[[[v]^A",
        "[v]^A ]",
        "[a]] [[[b[i]]^c [d]]]\n[e]]",
        "$$```a\\$$```b\\$$",
        "$$```math\\\n x ```$$$$",
        "$$\\$$\\$$",
        "$$ a \\$$",
        "$ $ \\mathbb{S} $ $ \\mathbb{Z}\\mathbb{S}[0,1]",
        "$x^\\theta_\\beta{y}\\$$$",
        "\\\\$$$$ \\$$$",
    ];
    let repairs: [fn(&str) -> String; 9] = [
        reconstruct_escape_collisions,
        strip_fake_latex_codefence,
        strip_ocr_math_boundary_artefacts,
        repair_sample_dollar,
        balance_double_brackets,
        repair_missing_inner_bracket,
        balance_math_delimiters,
        brace_single_token_scripts,
        repair_latex,
    ];
    for t in texts {
        for repair in repairs {
            let once = repair(t);
            assert_eq!(repair(&once), once);
        }
        let whole = repair_latex(t);
        for repair in repairs {
            assert_eq!(repair(&whole), whole);
        }
    }
}

#[test]
fn only_bare_scripts_get_braces() {
    assert_eq!(
        brace_single_token_scripts("a^\\alpha b_\\beta{c} d^{\\gamma}_\\delta"),
        "a^{\\alpha} b_\\beta{c} d^{\\gamma}_{\\delta}"
    );
}

#[test]
fn repaired_texts_have_their_scripts_braced() {
    for t in ["$x^\\theta$", "a_\\beta b^\\gamma", "\\mathbb{S} \\mathbb{Z}_\\ell"] {
        let once = repair_latex(t);
        assert_eq!(brace_single_token_scripts(&once), once);
    }
}

#[test]
fn sampling_marks_are_repaired_at_once() {
    let t = "$v \\leftarrow $ $\\mathbb{S}$ $\\mathbb{Z}$ and \\mathbb{S}\\mathbb{S} [0,1]";
    let once = repair_sample_dollar(t);
    assert_eq!(repair_sample_dollar(&once), once);
}

#[test]
fn math_is_told_from_prose() {
    assert!(is_math_like("a $"));
    assert!(is_math_like("\\alpha"));
    assert!(!is_math_like("a \\\\ b"));
    assert!(!is_math_like("prose"));
}

#[test]
fn single_lines_are_balanced() {
    let line = |t: &str| t.chars().collect::<Vec<char>>();
    let out: String = balance_double_brackets_line(&line("[v]], [[w]]")).into_iter().collect();
    assert_eq!(out, "[[v]], [[w]]");
    let (out, inside) = balance_math_delimiters_line(&line("$$ open"), false);
    assert_eq!(out.into_iter().collect::<String>(), "$$ open");
    assert!(inside);
    let (_, inside) = balance_math_delimiters_line(&line("close $$"), true);
    assert!(!inside);
}

#[test]
fn the_collision_table_prefers_longer_commands() {
    let table = escape_collision_table();
    assert_eq!(table.len(), 6);
    let tab = &table.iter().find(|(c, _)| *c == '\t').unwrap().1;
    let at = |cmd: &str| tab.iter().position(|t| *t == cmd).unwrap();
    assert!(at("textbf") < at("text"));
}

#[test]
fn placeholders_on_lines_of_their_own_are_kept() {
    let marks = ["![tbl_3_0](edgequake-table)", "![fig_12_1](edgequake-figure)"];
    for mark in marks {
        for (before, behind) in [
            ("", ""),
            ("$x\n", "\n[v]]^A"),
            ("[[x\n", "\n]^\\alpha"),
            ("$$```math\n", "\r\n```$$$$ y"),
            ("\\mathbb{S}\n", "\n[0,1] \u{8}eta"),
            ("prose\n", "\ne is a letter"),
        ] {
            let out = repair_latex(&format!("{before}{mark}{behind}"));
            assert!(out.lines().any(|l| l == mark), "{out:?}");
        }
    }
    let eaten = repair_latex("$x$\n![tbl_3_0](edgequake-table)\ne is a letter");
    assert_eq!(eaten, "$x$\n![tbl_3_0](edgequake-table)\\ne is a letter");
}

#[test]
fn mathematics_stays_mathematics() {
    for t in ["a $", "\\alpha", "\\\\mathbb{S} [0,1]", "\u{8}eta", "$$\\$$\\$$"] {
        let once = repair_latex(t);
        assert!(is_math_like(&once), "{once:?}");
    }
}
