use getcat::body::tier::{select_tier, ViewTier, EDITOR_MAX_BYTES, EDITOR_MAX_LINES};

#[test]
fn editor_tier_requires_both_limits() {
    assert_eq!(select_tier(0, 0), ViewTier::Editor);
    assert_eq!(
        select_tier(EDITOR_MAX_BYTES, EDITOR_MAX_LINES),
        ViewTier::Editor
    );
    assert_eq!(select_tier(EDITOR_MAX_BYTES + 1, 1), ViewTier::Virtual);
    assert_eq!(select_tier(1, EDITOR_MAX_LINES + 1), ViewTier::Virtual);
}

#[test]
fn notices() {
    assert!(ViewTier::Editor.notice().is_none());
    assert!(ViewTier::Virtual.notice().unwrap().contains("纯文本"));
    assert!(ViewTier::Preview.notice().unwrap().contains("1 MB"));
}
