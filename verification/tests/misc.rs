use fastxfix::{common_prefix, common_suffix};

fn strs(v: &[&str]) -> Vec<String> {
    v.iter().map(|s| s.to_string()).collect()
}

#[test]
fn misc() {
    let input: Vec<String> = Vec::new();
    let prefix = common_prefix(&input);
    assert_eq!(prefix, None);
    let suffix = common_suffix(&input);
    assert_eq!(suffix, None);

    let input = strs(&["just a single entry"]);
    let prefix = common_prefix(&input).unwrap();
    assert_eq!(prefix, input[0]);
    let suffix = common_suffix(&input).unwrap();
    assert_eq!(suffix, input[0]);

    let input = strs(&["foobar", "fooqux", "foodle", "fookys"]);
    let prefix = common_prefix(&input).unwrap();
    assert_eq!(prefix, "foo");
    let suffix = common_suffix(&input);
    assert_eq!(suffix, None);

    let input = strs(&["café", "caféine"]);
    let prefix = common_prefix(&input).unwrap();
    assert_eq!(prefix, "café");
    let suffix = common_suffix(&input);
    assert_eq!(suffix, None);

    let input = strs(&["äbc", "âbc"]);
    let prefix = common_prefix(&input);
    assert_eq!(prefix, None);
    let suffix = common_suffix(&input).unwrap();
    assert_eq!(suffix, "bc");

    let input = strs(&["abc€", "xyz€"]);
    let prefix = common_prefix(&input);
    assert_eq!(prefix, None);
    let suffix = common_suffix(&input).unwrap();
    assert_eq!(suffix, "€");

    let input = strs(&["abcä", "defâ"]);
    let prefix = common_prefix(&input);
    assert_eq!(prefix, None);
    let suffix = common_suffix(&input);
    assert_eq!(suffix, None);

    let input = strs(&["some thingy", "nothing"]);
    let prefix = common_prefix(&input);
    assert_eq!(prefix, None);
    let suffix = common_suffix(&input);
    assert_eq!(suffix, None);

    let input = strs(&["-lol-", "_lol_"]);
    let prefix = common_prefix(&input);
    assert_eq!(prefix, None);
    let suffix = common_suffix(&input);
    assert_eq!(suffix, None);

    let input = strs(&["a🤖b", "a🤡b"]);
    let prefix = common_prefix(&input).unwrap();
    assert_eq!(prefix, "a");
    let suffix = common_suffix(&input).unwrap();
    assert_eq!(suffix, "b");

    let input = strs(&["résumé", "résister"]);
    let prefix = common_prefix(&input).unwrap();
    assert_eq!(prefix, "rés");
    let suffix = common_suffix(&input);
    assert_eq!(suffix, None);

    let input = strs(&["abcédef", "xyzèdef"]);
    let prefix = common_prefix(&input);
    assert_eq!(prefix, None);
    let suffix = common_suffix(&input).unwrap();
    assert_eq!(suffix, "def");

    let input = strs(&["Goodbye 👋", "Farewell 👋"]);
    let prefix = common_prefix(&input);
    assert_eq!(prefix, None);
    let suffix = common_suffix(&input).unwrap();
    assert_eq!(suffix, " 👋");

    let input = strs(&["Family: 👨‍👩‍👧", "Group: 👨‍👩‍👧"]);
    let prefix = common_prefix(&input);
    assert_eq!(prefix, None);
    let suffix = common_suffix(&input).unwrap();
    assert_eq!(suffix, ": 👨‍👩‍👧");

    let input = strs(&["just some words 世界", "世界"]);
    let prefix = common_prefix(&input);
    assert_eq!(prefix, None);
    let suffix = common_suffix(&input).unwrap();
    assert_eq!(suffix, "世界");

    let input = strs(&["tests😀", "best😀"]);
    let prefix = common_prefix(&input);
    assert_eq!(prefix, None);
    let suffix = common_suffix(&input).unwrap();
    assert_eq!(suffix, "😀");

    let input = strs(&["wowie_bruhther_clap", "wowie-lol-clap", "wowie_xd_clap"]);
    let prefix = common_prefix(&input).unwrap();
    assert_eq!(prefix, "wowie");
    let suffix = common_suffix(&input).unwrap();
    assert_eq!(suffix, "clap");
}
