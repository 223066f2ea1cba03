use uuid_index::browse::{scroll_down, scroll_up, validate_index, visible_rows, IndexStatus};
use uuid_index::identifier::{index_to_uuid, INDEX_LIMIT};

#[test]
fn validate_typed_index() {
    assert_eq!(validate_index(None), IndexStatus::NotANumber);
    assert_eq!(validate_index(Some(0)), IndexStatus::Valid);
    assert_eq!(validate_index(Some(INDEX_LIMIT - 1)), IndexStatus::Valid);
    assert_eq!(validate_index(Some(INDEX_LIMIT)), IndexStatus::OutOfBounds);
    assert_eq!(validate_index(Some(u128::MAX)), IndexStatus::OutOfBounds);
}

#[test]
fn cursor_moves() {
    assert_eq!(scroll_down(0), 1);
    assert_eq!(scroll_down(INDEX_LIMIT - 2), INDEX_LIMIT - 1);
    assert_eq!(scroll_down(INDEX_LIMIT - 1), 0);
    assert_eq!(scroll_up(5), 4);
    assert_eq!(scroll_up(0), 0);
    assert_eq!(scroll_up(INDEX_LIMIT - 1), INDEX_LIMIT - 2);
}

#[test]
fn rows_follow_the_cursor() {
    let rows = visible_rows(40, 3);
    assert_eq!(rows.len(), 3);
    assert_eq!(rows[2], "e484b3a7-ca17-4587-85e9-c0e178aee072");
    assert_eq!(rows[0], index_to_uuid(40).unwrap());
    assert_eq!(visible_rows(0, 0).len(), 0);
}

#[test]
fn rows_stop_at_the_last_index() {
    let rows = visible_rows(INDEX_LIMIT - 2, 5);
    assert_eq!(rows.len(), 2);
    assert_eq!(rows[1], "34d87496-52b1-4fd0-bcea-8264e5776e91");
    assert_eq!(visible_rows(INDEX_LIMIT, 5).len(), 0);
}
