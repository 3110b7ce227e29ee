use nous_memory::segments::segment_ranges;

#[test]
fn multibyte_text_is_split_at_character_boundaries() {
    assert_eq!(segment_ranges("héllo", 2), vec![(0, 3), (3, 5), (5, 6)]);
}

#[test]
fn exact_multiple_leaves_no_short_tail() {
    assert_eq!(segment_ranges("abcdef", 3), vec![(0, 3), (3, 6)]);
    assert_eq!(segment_ranges("abcdefg", 3), vec![(0, 3), (3, 6), (6, 7)]);
}

#[test]
fn zero_limit_or_empty_text_gives_no_ranges() {
    assert!(segment_ranges("abc", 0).is_empty());
    assert!(segment_ranges("", 4).is_empty());
}

#[test]
fn short_text_is_one_range() {
    assert_eq!(segment_ranges("日本", 10), vec![(0, 6)]);
    assert_eq!(segment_ranges("日本語", 1), vec![(0, 3), (3, 6), (6, 9)]);
}

#[test]
fn ranges_tile_the_text() {
    let text = "Long heterogeneous material.\n🙂 with emoji and accents: éàü";
    let ranges = segment_ranges(text, 7);
    assert_eq!(ranges.first().map(|r| r.0), Some(0));
    assert_eq!(ranges.last().map(|r| r.1), Some(text.len()));
    for pair in ranges.windows(2) {
        assert_eq!(pair[0].1, pair[1].0);
        assert_eq!(text[pair[0].0..pair[0].1].chars().count(), 7);
    }
    let (start, end) = *ranges.last().expect("ranges");
    let tail = text[start..end].chars().count();
    assert!((1..=7).contains(&tail));
}

#[test]
fn segments_cover_the_text_in_rounded_up_pieces() {
    let text = "héllo wörld";
    let ranges = nous_memory::segments::segment_ranges(text, 3);
    assert_eq!(ranges.len(), 4);
    let joined: String = ranges.iter().map(|&(a, b)| &text[a..b]).collect();
    assert_eq!(joined, text);
    assert_eq!(nous_memory::segments::segment_ranges(text, 11).len(), 1);
    assert_eq!(nous_memory::segments::segment_ranges(text, 5).len(), 3);
}
