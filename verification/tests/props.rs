use fastxfix::{
    common_prefix, common_prefix_len, common_prefix_raw, common_prefix_raw_len,
    common_prefix_raw_ref, common_prefix_ref, common_suffix, common_suffix_len, common_suffix_raw,
    common_suffix_raw_len, common_suffix_raw_ref, common_suffix_ref,
};

fn strs(v: &[&str]) -> Vec<String> {
    v.iter().map(|s| s.to_string()).collect()
}

#[test]
fn empty_collection_has_no_span() {
    let input: Vec<String> = Vec::new();
    assert_eq!(common_prefix(&input), None);
    assert_eq!(common_suffix(&input), None);
    assert_eq!(common_prefix_len(&input), None);
    assert_eq!(common_suffix_len(&input), None);
    let raw: Vec<Vec<u64>> = Vec::new();
    assert_eq!(common_prefix_raw(&raw), None);
    assert_eq!(common_suffix_raw(&raw), None);
    assert_eq!(common_prefix_raw_len(&raw), None);
    assert_eq!(common_suffix_raw_len(&raw), None);
}

#[test]
fn single_element_is_its_own_span() {
    let input = strs(&["día 🌞"]);
    assert_eq!(common_prefix(&input).unwrap(), "día 🌞");
    assert_eq!(common_suffix(&input).unwrap(), "día 🌞");
    let raw = vec![vec![7u64, 8, 9]];
    assert_eq!(common_prefix_raw(&raw).unwrap(), vec![7u64, 8, 9]);
    assert_eq!(common_suffix_raw(&raw).unwrap(), vec![7u64, 8, 9]);
}

#[test]
fn single_empty_element_has_no_span() {
    let input = strs(&[""]);
    assert_eq!(common_prefix(&input), None);
    assert_eq!(common_suffix(&input), None);
    let raw: Vec<Vec<u64>> = vec![Vec::new()];
    assert_eq!(common_prefix_raw(&raw), None);
    assert_eq!(common_suffix_raw(&raw), None);
}

#[test]
fn empty_element_removes_span() {
    let input = strs(&["abc", "", "abd"]);
    assert_eq!(common_prefix(&input), None);
    assert_eq!(common_suffix(&input), None);
}

#[test]
fn equal_elements_share_everything() {
    let input = strs(&["same", "same", "same"]);
    assert_eq!(common_prefix(&input).unwrap(), "same");
    assert_eq!(common_suffix(&input).unwrap(), "same");
}

#[test]
fn element_that_is_a_prefix_of_the_others() {
    let input = strs(&["foo", "foobar", "foointments"]);
    assert_eq!(common_prefix(&input).unwrap(), "foo");
    assert_eq!(common_suffix(&input), None);
}

#[test]
fn suffix_is_reverse_of_prefix_of_reversed_ascii() {
    let inputs: Vec<Vec<String>> = vec![
        strs(&["wowie_bruhther_clap", "wowie-lol-clap", "wowie_xd_clap"]),
        strs(&["foobar", "fooqux"]),
        strs(&["drive", "alive", "hive"]),
        strs(&["x", "y"]),
    ];
    for input in inputs {
        let reversed: Vec<String> = input.iter().map(|s| s.chars().rev().collect()).collect();
        let suffix = common_suffix(&input);
        let prefix_of_reversed = common_prefix(&reversed)
            .map(|p| p.chars().rev().collect::<String>());
        assert_eq!(suffix, prefix_of_reversed);
    }
}

#[test]
fn order_invariance() {
    let a = strs(&["wowie_bruhther_clap", "wowie-lol-clap", "wowie_xd_clap"]);
    let b = strs(&["wowie_xd_clap", "wowie_bruhther_clap", "wowie-lol-clap"]);
    let c = strs(&["wowie-lol-clap", "wowie_xd_clap", "wowie_bruhther_clap"]);
    assert_eq!(common_prefix(&a), common_prefix(&b));
    assert_eq!(common_prefix(&b), common_prefix(&c));
    assert_eq!(common_suffix(&a), common_suffix(&b));
    assert_eq!(common_suffix(&b), common_suffix(&c));
    assert_eq!(common_prefix(&a).unwrap(), "wowie");
    assert_eq!(common_suffix(&a).unwrap(), "clap");
}

#[test]
fn results_are_valid_utf8_at_boundaries() {
    // The byte-level agreement runs into the middle of a multi-byte
    // character; the result must stop at the boundary before it.
    let input = strs(&["caé", "caè"]);
    assert_eq!(common_prefix(&input).unwrap(), "ca");
    let input = strs(&["a🤖b", "a🤡b"]);
    let p = common_prefix(&input).unwrap();
    assert!(p.is_char_boundary(p.len()));
    assert_eq!(p, "a");
    let s = common_suffix(&input).unwrap();
    assert_eq!(s, "b");
}

#[test]
fn appending_distinct_element_only_shrinks() {
    let mut input = strs(&["foobar", "foobaz"]);
    assert_eq!(common_prefix(&input).unwrap(), "fooba");
    input.push("foodle".to_string());
    assert_eq!(common_prefix(&input).unwrap(), "foo");
    input.push("bar".to_string());
    assert_eq!(common_prefix(&input), None);
    input.push("anything at all".to_string());
    assert_eq!(common_prefix(&input), None);
}

#[test]
fn length_round_trip() {
    let cases: Vec<Vec<String>> = vec![
        Vec::new(),
        strs(&[""]),
        strs(&["solo"]),
        strs(&["foobar", "fooqux", "foodle"]),
        strs(&["café", "caféine"]),
        strs(&["äbc", "âbc"]),
        strs(&["no", "overlap"]),
    ];
    for input in cases {
        let prefix = common_prefix(&input);
        let plen = common_prefix_len(&input);
        assert_eq!(prefix.as_ref().map(|p| p.len()), plen);
        let suffix = common_suffix(&input);
        let slen = common_suffix_len(&input);
        assert_eq!(suffix.as_ref().map(|s| s.len()), slen);
        if let Some(n) = plen {
            assert!(n > 0);
        }
        if let Some(n) = slen {
            assert!(n > 0);
        }
    }
}

#[test]
fn raw_length_round_trip() {
    let cases: Vec<Vec<Vec<u64>>> = vec![
        vec![vec![1, 2, 3], vec![1, 2, 4], vec![1, 9]],
        vec![vec![5, 1, 2], vec![9, 1, 2], vec![1, 2]],
        vec![vec![1], vec![2]],
    ];
    for input in cases {
        let prefix = common_prefix_raw(&input);
        let plen = common_prefix_raw_len(&input);
        assert_eq!(prefix.as_ref().map(|p| p.len()), plen);
        let suffix = common_suffix_raw(&input);
        let slen = common_suffix_raw_len(&input);
        assert_eq!(suffix.as_ref().map(|s| s.len()), slen);
    }
}

#[test]
fn raw_spans() {
    let input = vec![vec![1u64, 2, 3, 9], vec![1, 2, 3, 7], vec![1, 2, 3]];
    assert_eq!(common_prefix_raw(&input).unwrap(), vec![1u64, 2, 3]);
    assert_eq!(common_suffix_raw(&input), None);
    let input = vec![vec![9u64, 7, 7], vec![8, 7, 7], vec![7, 7]];
    assert_eq!(common_prefix_raw(&input), None);
    assert_eq!(common_suffix_raw(&input).unwrap(), vec![7u64, 7]);
    let input = vec![vec![0u8, 1, 2], vec![0, 1, 3]];
    assert_eq!(common_prefix_raw(&input).unwrap(), vec![0u8, 1]);
}

#[test]
fn borrowed_views_match_owned_copies() {
    let input = strs(&["foobar", "fooqux", "foodle"]);
    assert_eq!(common_prefix_ref(&input), common_prefix(&input).as_deref());
    assert_eq!(common_suffix_ref(&input), common_suffix(&input).as_deref());
    let raw = vec![vec![1u64, 2, 3], vec![1, 2, 4]];
    assert_eq!(common_prefix_raw_ref(&raw), common_prefix_raw(&raw).as_deref());
    assert_eq!(common_suffix_raw_ref(&raw), common_suffix_raw(&raw).as_deref());
}

#[test]
fn large_collection_forks_and_agrees() {
    // Large enough to cross the fork threshold of the reduction engine; the
    // result must be the same as for any small rearrangement of the content.
    let mut input: Vec<String> = (0..10_000).map(|i| format!("stem-{i}-leaf")).collect();
    assert_eq!(common_prefix(&input).unwrap(), "stem-");
    assert_eq!(common_suffix(&input).unwrap(), "-leaf");
    input.push("stem!different!leaf".to_string());
    assert_eq!(common_prefix(&input).unwrap(), "stem");
    assert_eq!(common_suffix(&input).unwrap(), "leaf");
    let raw: Vec<Vec<u64>> = (0..10_000).map(|i| vec![3, 1, 4, i as u64, 2, 7]).collect();
    assert_eq!(common_prefix_raw(&raw).unwrap(), vec![3u64, 1, 4]);
    assert_eq!(common_suffix_raw(&raw).unwrap(), vec![2u64, 7]);
}

#[test]
fn long_spans_cross_chunk_widths() {
    // Spans longer than one comparison chunk exercise the chunked fast path
    // and its tail in both directions.
    let base = "0123456789abcdefghijklmnopqrstuvwxyz";
    let input = strs(&[
        &format!("{base}-ONE"),
        &format!("{base}-TWO"),
        &format!("{base}-SIX"),
    ]);
    assert_eq!(common_prefix(&input).unwrap(), format!("{base}-"));
    let input = strs(&[
        &format!("one#{base}"),
        &format!("two#{base}"),
        &format!("six#{base}"),
    ]);
    assert_eq!(common_suffix(&input).unwrap(), format!("#{base}"));
}
