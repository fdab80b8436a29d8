use zenith::cell::Cell;
use zenith::grid::Grid;

fn put_row(g: &mut Grid, row: usize, text: &str) {
    for (col, c) in text.chars().enumerate() {
        g.cell_mut(col, row).c = c;
    }
}

fn row_chars(g: &Grid, row: usize) -> String {
    (0..g.cols()).map(|col| g.cell(col, row).c).collect()
}

#[test]
fn new_grid_is_blank_and_dirty() {
    let g = Grid::new(4, 3, 10);
    assert_eq!(g.cols(), 4);
    assert_eq!(g.rows(), 3);
    assert_eq!(g.scrollback_len(), 0);
    assert_eq!(g.total_lines(), 0);
    assert_eq!(g.display_offset(), 0);
    for row in 0..3 {
        assert!(g.is_dirty(row));
        assert_eq!(row_chars(&g, row), "    ");
    }
    assert_eq!(g.cell(0, 0).width, 1);
    assert_eq!(g.cell(0, 0).bg, Cell::default().bg);
}

#[test]
fn scroll_up_from_top_pushes_lines_into_scrollback() {
    let mut g = Grid::new(4, 3, 10);
    put_row(&mut g, 0, "ab");
    put_row(&mut g, 1, "cd");
    g.clear_dirty();
    g.scroll_up(0, 2, 2);
    assert_eq!(g.scrollback_len(), 2);
    assert_eq!(g.total_lines(), 2);
    assert_eq!(row_chars(&g, 0), "    ");
    assert!(g.is_dirty(0) && g.is_dirty(1) && g.is_dirty(2));
    assert_eq!(g.screen_text(10), "ab\ncd\n\n\n");
    assert_eq!(g.screen_text(1), "cd\n\n\n");
}

#[test]
fn scroll_up_inside_a_region_keeps_the_scrollback() {
    let mut g = Grid::new(3, 3, 10);
    put_row(&mut g, 0, "aaa");
    put_row(&mut g, 1, "bbb");
    put_row(&mut g, 2, "ccc");
    g.scroll_up(1, 2, 1);
    assert_eq!(g.total_lines(), 0);
    assert_eq!(row_chars(&g, 0), "aaa");
    assert_eq!(row_chars(&g, 1), "ccc");
    assert_eq!(row_chars(&g, 2), "   ");
}

#[test]
fn scrollback_limit_trims_oldest_and_counts_all() {
    let mut g = Grid::new(2, 1, 2);
    for c in ['a', 'b', 'c'] {
        put_row(&mut g, 0, &c.to_string());
        g.scroll_up(0, 0, 1);
    }
    assert_eq!(g.scrollback_len(), 2);
    assert_eq!(g.total_lines(), 3);
    assert_eq!(g.abs_rows_text(0, 3), "b\nc\n");
    assert_eq!(g.abs_rows_text(2, 2), "c");
}

#[test]
fn scroll_down_inserts_blank_rows_at_top() {
    let mut g = Grid::new(2, 3, 10);
    put_row(&mut g, 0, "xx");
    put_row(&mut g, 1, "yy");
    g.scroll_down(0, 2, 1);
    assert_eq!(row_chars(&g, 0), "  ");
    assert_eq!(row_chars(&g, 1), "xx");
    assert_eq!(row_chars(&g, 2), "yy");
}

#[test]
fn delete_after_insert_restores_line_but_its_tail() {
    let mut g = Grid::new(5, 1, 0);
    put_row(&mut g, 0, "abcde");
    g.insert_chars(0, 1, 2);
    assert_eq!(row_chars(&g, 0), "a  bc");
    g.delete_chars(0, 1, 2);
    assert_eq!(row_chars(&g, 0), "abc  ");
}

#[test]
fn insert_and_delete_are_clipped_to_the_line() {
    let mut g = Grid::new(4, 1, 0);
    put_row(&mut g, 0, "abcd");
    g.insert_chars(0, 2, 99);
    assert_eq!(row_chars(&g, 0), "ab  ");
    put_row(&mut g, 0, "abcd");
    g.delete_chars(0, 1, 99);
    assert_eq!(row_chars(&g, 0), "a   ");
}

#[test]
fn erase_line_blanks_a_span() {
    let mut g = Grid::new(5, 1, 0);
    put_row(&mut g, 0, "abcde");
    g.erase_line(0, 1, 3);
    assert_eq!(row_chars(&g, 0), "a  de");
}

#[test]
fn clear_blanks_the_screen_but_not_the_scrollback() {
    let mut g = Grid::new(2, 2, 5);
    put_row(&mut g, 0, "ab");
    g.scroll_up(0, 1, 1);
    put_row(&mut g, 0, "cd");
    g.clear();
    assert_eq!(row_chars(&g, 0), "  ");
    assert_eq!(g.scrollback_len(), 1);
}

#[test]
fn resize_to_same_size_keeps_screen() {
    let mut g = Grid::new(3, 2, 5);
    put_row(&mut g, 0, "abc");
    put_row(&mut g, 1, "def");
    g.resize(3, 2);
    assert_eq!(row_chars(&g, 0), "abc");
    assert_eq!(row_chars(&g, 1), "def");
}

#[test]
fn resize_keeps_top_left_corner() {
    let mut g = Grid::new(3, 2, 5);
    put_row(&mut g, 0, "abc");
    put_row(&mut g, 1, "def");
    g.resize(2, 3);
    assert_eq!(g.cols(), 2);
    assert_eq!(g.rows(), 3);
    assert_eq!(row_chars(&g, 0), "ab");
    assert_eq!(row_chars(&g, 1), "de");
    assert_eq!(row_chars(&g, 2), "  ");
}

#[test]
fn scroll_display_clamps_and_shows_scrollback() {
    let mut g = Grid::new(2, 2, 5);
    put_row(&mut g, 0, "ab");
    g.scroll_up(0, 1, 1);
    put_row(&mut g, 0, "cd");
    g.scroll_display(5);
    assert_eq!(g.display_offset(), 1);
    assert_eq!(g.display_cell(0, 0).c, 'a');
    assert_eq!(g.display_cell(0, 1).c, 'c');
    g.scroll_display(-9);
    assert_eq!(g.display_offset(), 0);
    assert_eq!(g.display_cell(0, 0).c, 'c');
    g.scroll_display(1);
    g.reset_display_offset();
    assert_eq!(g.display_offset(), 0);
}

#[test]
fn selection_text_is_the_same_both_ways() {
    let mut g = Grid::new(4, 3, 5);
    put_row(&mut g, 0, "abcd");
    put_row(&mut g, 1, "ef");
    put_row(&mut g, 2, "ghij");
    let forward = g.display_text_range((2, 0), (1, 2));
    let backward = g.display_text_range((1, 2), (2, 0));
    assert_eq!(forward, "cd\nef\ngh");
    assert_eq!(forward, backward);
    assert_eq!(g.display_text_range((3, 1), (0, 1)), "ef");
}

#[test]
fn wide_char_continuation_is_left_out_of_text() {
    let mut g = Grid::new(4, 1, 0);
    g.cell_mut(0, 0).c = '中';
    g.cell_mut(0, 0).width = 2;
    g.cell_mut(1, 0).c = ' ';
    g.cell_mut(1, 0).width = 0;
    g.cell_mut(2, 0).c = 'x';
    assert_eq!(g.screen_text(0), "中x");
    assert_eq!(g.row_slice(0).len(), 4);
}

#[test]
fn edits_mark_only_the_rows_they_change() {
    let mut g = Grid::new(4, 4, 10);
    put_row(&mut g, 1, "abcd");
    g.clear_dirty();
    assert!((0..4).all(|r| !g.is_dirty(r)));
    g.erase_line(1, 0, 2);
    assert_eq!((0..4).map(|r| g.is_dirty(r)).collect::<Vec<_>>(), vec![false, true, false, false]);
    g.clear_dirty();
    g.insert_chars(2, 0, 1);
    g.delete_chars(3, 0, 1);
    assert_eq!((0..4).map(|r| g.is_dirty(r)).collect::<Vec<_>>(), vec![false, false, true, true]);
    g.clear_dirty();
    g.scroll_down(1, 2, 1);
    assert_eq!((0..4).map(|r| g.is_dirty(r)).collect::<Vec<_>>(), vec![false, true, true, false]);
    g.clear_dirty();
    g.mark_all_dirty();
    assert!((0..4).all(|r| g.is_dirty(r)));
}

#[test]
fn only_scrolling_from_the_top_counts_lines() {
    let mut g = Grid::new(3, 3, 1);
    g.scroll_up(0, 2, 2);
    assert_eq!(g.total_lines(), 2);
    assert_eq!(g.scrollback_len(), 1);
    g.scroll_up(1, 2, 5);
    g.scroll_down(0, 2, 1);
    g.clear();
    g.erase_line(0, 0, 3);
    g.insert_chars(0, 0, 1);
    g.delete_chars(0, 0, 1);
    g.resize(2, 2);
    g.scroll_display(1);
    g.reset_display_offset();
    assert_eq!(g.total_lines(), 2);
    assert_eq!(g.scrollback_len(), 1);
}
