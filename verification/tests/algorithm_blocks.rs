use edgequake::algo_blocks::{
    algo_block_headings, algo_block_labels, looks_like_step_marker, postprocess_algorithm_blocks,
    starts_with_algo_heading,
};

#[test]
fn promotes_protocol_heading() {
    let md = "- Protocol 1 Bit2A protocol (Π1) Input: A Boolean sharing. Output: An arithmetic sharing. Setup phase: 1: sample r. 2: compute v.";
    let out = postprocess_algorithm_blocks(md);
    assert!(out.contains("#### Protocol 1 Bit2A protocol (Π1)"));
    assert!(out.contains("**Input**"));
    assert!(out.contains("**Output**"));
    assert!(out.contains("**Setup phase**"));
    assert!(out.contains("1. sample r"));
    assert!(out.contains("2. compute v"));
}

#[test]
fn promotes_functionality_heading() {
    let md = "- Functionality: JbK A ← Bit2A(JbKB, λ) Input: A sharing. Output: An output.";
    let out = postprocess_algorithm_blocks(md);
    assert!(out.contains("#### Functionality: JbK A"));
}

#[test]
fn leaves_normal_bullets_alone() {
    let md = "- This is just a regular bullet point with no keywords.";
    let out = postprocess_algorithm_blocks(md);
    assert_eq!(out.trim(), md.trim());
}

#[test]
fn leaves_headings_alone() {
    let md = "## I. Introduction\n\nSome text here.\n";
    let out = postprocess_algorithm_blocks(md);
    assert!(out.contains("## I. Introduction"));
}


#[test]
fn pieces_of_a_listing_are_recognised() {
    let chars = |t: &str| t.chars().collect::<Vec<char>>();
    assert!(starts_with_algo_heading(&chars("Protocol 1 Bit2A")));
    assert!(!starts_with_algo_heading(&chars("Protocols are fun")));
    assert!(looks_like_step_marker(&chars("12:")));
    assert!(!looks_like_step_marker(&chars("12")));
    assert!(algo_block_headings().contains(&"Protocol"));
    assert!(algo_block_labels().contains(&"Input:"));
}

#[test]
fn a_heading_word_needs_a_digit_a_colon_or_a_parenthesis() {
    let chars = |t: &str| t.chars().collect::<Vec<char>>();
    for t in ["Protocol 1", "Protocol1", "Protocol(1)", "Protocol (1)", "Functionality:"] {
        assert!(starts_with_algo_heading(&chars(t)), "{t}");
    }
    for t in ["Protocol", "Protocol ", "Protocol x", "Protocols (1)", "the Protocol 1"] {
        assert!(!starts_with_algo_heading(&chars(t)), "{t}");
    }
}
