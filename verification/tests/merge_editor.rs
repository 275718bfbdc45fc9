use slio_git::git::diff::MergeChunkType;
use slio_git::ui::merge_editor::{
    conflict_position_for_chunk, gutter_buttons_for_block, navigate_conflict_target, ChunkLayout,
    ChunkResolution, GutterButtonKind, LinkMapBlock, LinkMapSide,
};

fn sample_layouts() -> Vec<ChunkLayout> {
    vec![
        ChunkLayout { chunk_id: 0, chunk_type: MergeChunkType::Equal, resolved: true, left_range: 0..5, center_range: 0..5, right_range: 0..5 },
        ChunkLayout { chunk_id: 1, chunk_type: MergeChunkType::Conflict, resolved: false, left_range: 5..7, center_range: 5..10, right_range: 5..8 },
        ChunkLayout { chunk_id: 2, chunk_type: MergeChunkType::OursOnly, resolved: true, left_range: 7..9, center_range: 10..12, right_range: 8..8 },
        ChunkLayout { chunk_id: 3, chunk_type: MergeChunkType::Conflict, resolved: false, left_range: 12..13, center_range: 15..18, right_range: 10..12 },
    ]
}

#[test]
fn navigate_conflict_target_skips_non_conflict_chunks() {
    let layouts = sample_layouts();
    assert_eq!(navigate_conflict_target(&layouts, Some(2), true), Some(3));
    assert_eq!(navigate_conflict_target(&layouts, Some(2), false), Some(1));
}

#[test]
fn conflict_position_for_chunk_uses_following_conflict() {
    let layouts = sample_layouts();
    assert_eq!(conflict_position_for_chunk(&layouts, 2), Some(1));
}

#[test]
fn left_gutter_exposes_base_and_ours_actions_for_ours_only_chunk() {
    let block = LinkMapBlock { chunk_id: 2, chunk_type: MergeChunkType::OursOnly, resolved: true, left_range: 7..9, right_range: 10..12 };
    let buttons = gutter_buttons_for_block(
        LinkMapSide::Left,
        &block,
        &[Some(ChunkResolution::Base), None, Some(ChunkResolution::Ours)],
    );
    assert_eq!(buttons.len(), 2);
    assert_eq!(buttons[0].kind, GutterButtonKind::Base);
    assert_eq!(buttons[1].kind, GutterButtonKind::Ours);
    assert!(buttons[1].active);
}

#[test]
fn right_gutter_exposes_theirs_and_base_actions_for_conflict_chunk() {
    let block = LinkMapBlock { chunk_id: 3, chunk_type: MergeChunkType::Conflict, resolved: true, left_range: 15..18, right_range: 10..12 };
    let buttons = gutter_buttons_for_block(
        LinkMapSide::Right,
        &block,
        &[Some(ChunkResolution::Base), None, Some(ChunkResolution::Ours), Some(ChunkResolution::Base)],
    );
    assert_eq!(buttons.len(), 2);
    assert_eq!(buttons[0].kind, GutterButtonKind::Theirs);
    assert_eq!(buttons[1].kind, GutterButtonKind::Base);
    assert!(buttons[1].active);
}

#[test]
fn navigation_stays_on_the_last_conflict_at_either_end() {
    let layouts = sample_layouts();
    assert_eq!(navigate_conflict_target(&layouts, Some(3), true), Some(3));
    assert_eq!(navigate_conflict_target(&layouts, Some(1), false), Some(1));
    assert_eq!(navigate_conflict_target(&layouts, None, true), Some(1));
    let no_conflicts = vec![ChunkLayout { chunk_id: 0, chunk_type: MergeChunkType::Equal, resolved: true, left_range: 0..1, center_range: 0..1, right_range: 0..1 }];
    assert_eq!(navigate_conflict_target(&no_conflicts, None, true), None);
}
