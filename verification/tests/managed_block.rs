use hunming::install::{
    bash_managed_block, insert_managed_block, powershell_managed_block, MANAGED_BLOCK_END,
    MANAGED_BLOCK_START,
};

#[test]
fn inserts_block_into_empty_content() {
    let block = bash_managed_block("/tmp/hunming/generated/bash.sh");

    let result = insert_managed_block("", &block);

    assert_eq!(result, block);
}

#[test]
fn appends_block_without_touching_user_content() {
    let original = "export PATH=\"$HOME/bin:$PATH\"\n";
    let block = bash_managed_block("/tmp/hunming/generated/bash.sh");

    let result = insert_managed_block(original, &block);

    assert!(result.starts_with(original));
    assert!(result.contains(MANAGED_BLOCK_START));
    assert!(result.contains(MANAGED_BLOCK_END));
    assert!(result.ends_with(&block));
}

#[test]
fn replaces_existing_block() {
    let original = format!(
        "before\n{start}\nold\n{end}\nafter\n",
        start = MANAGED_BLOCK_START,
        end = MANAGED_BLOCK_END
    );
    let block = powershell_managed_block("/tmp/hunming/generated/powershell.ps1");

    let result = insert_managed_block(&original, &block);

    assert!(result.starts_with("before\n"));
    assert!(result.ends_with("after\n"));
    assert!(result.contains(&block));
    assert!(!result.contains("old"));
}

#[test]
fn powershell_block_matches_expected_shape() {
    let block = powershell_managed_block("/tmp/hunming/generated/powershell.ps1");

    assert_eq!(
        block,
        "# >>> hunming init >>>\n$hunmingProfile = \"/tmp/hunming/generated/powershell.ps1\"\nif (Test-Path $hunmingProfile) {\n    . $hunmingProfile\n}\n# <<< hunming init <<<\n"
    );
}

#[test]
fn bash_block_matches_expected_shape() {
    let block = bash_managed_block("/tmp/hunming/generated/bash.sh");

    assert_eq!(
        block,
        "# >>> hunming init >>>\nif [ -f \"/tmp/hunming/generated/bash.sh\" ]; then\n  . \"/tmp/hunming/generated/bash.sh\"\nfi\n# <<< hunming init <<<\n"
    );
}

#[test]
fn inserting_twice_changes_nothing() {
    let block = bash_managed_block("/tmp/hunming/generated/bash.sh");
    for original in ["", "export A=1", "export A=1\n", "a\n\n", "x\r\n"] {
        let once = insert_managed_block(original, &block);
        let twice = insert_managed_block(&once, &block);
        assert_eq!(once, twice);
        assert_eq!(once.matches(MANAGED_BLOCK_START).count(), 1);
    }
}

#[test]
fn appended_block_follows_a_blank_line() {
    let block = bash_managed_block("/g/bash.sh");
    assert_eq!(insert_managed_block("a", &block), format!("a\n\n{block}"));
    assert_eq!(insert_managed_block("a\n", &block), format!("a\n\n{block}"));
    assert_eq!(insert_managed_block("a\n\n", &block), format!("a\n\n{block}"));
}

#[test]
fn replaced_block_keeps_crlf_line_ending_out() {
    let original = format!("x\n{MANAGED_BLOCK_START}\nold\n{MANAGED_BLOCK_END}\r\ny\n");
    let block = bash_managed_block("/g/bash.sh");
    assert_eq!(insert_managed_block(&original, &block), format!("x\n{block}y\n"));
}

#[test]
fn new_block_replaces_block_of_other_shell() {
    let bash = bash_managed_block("/g/bash.sh");
    let ps = powershell_managed_block("/g/powershell.ps1");
    let content = insert_managed_block("keep\n", &bash);
    assert_eq!(insert_managed_block(&content, &ps), format!("keep\n\n{ps}"));
}
