use youtube_summarizer_server::web::services::summary::{
    chunk_items, chunk_text_by_chars, chunk_text_by_words,
};

fn convert<'a>(x: impl IntoIterator<Item = &'a str>) -> Vec<String> {
    x.into_iter().map(str::to_string).collect()
}

#[test]
fn does_range_two_one() {
    assert_eq!(chunk_text_by_words("a b c d e", 2, 1), convert(["a b", "b c", "c d", "d e"]));
}

#[test]
fn does_range_three_one() {
    assert_eq!(chunk_text_by_words("a b c d e", 3, 1), convert(["a b c", "c d e"]));
}

#[test]
fn does_range_three_two() {
    assert_eq!(chunk_text_by_words("a b c d e", 3, 2), convert(["a b c", "b c d", "c d e"]));
}

#[test]
fn does_range_three_three() {
    assert_eq!(chunk_text_by_words("a b c d e", 3, 3), convert(["a b c d e"]));
}

#[test]
fn does_range_one_three() {
    assert_eq!(chunk_text_by_words("a b c d e", 1, 3), convert(["a b c d e"]));
}

#[test]
fn does_range_one_zero() {
    assert_eq!(chunk_text_by_words("a b c d e", 1, 0), convert(["a", "b", "c", "d", "e"]));
}

#[test]
fn does_range_ten_zero() {
    assert_eq!(chunk_text_by_words("a b c d e", 10, 0), convert(["a b c d e"]));
}

#[test]
fn words_are_split_at_any_ascii_whitespace() {
    assert_eq!(chunk_text_by_words("  a\tb\n\nc\r\nd  ", 2, 0), convert(["a b", "c d"]));
}

fn gen_n_words(n: usize) -> String {
    "a ".repeat(n)
}

fn word_count(s: &str) -> usize {
    s.split_ascii_whitespace().count()
}

fn check_chunk_sizes(input_size: usize, size: usize, overlap: usize, expected_sizes: Vec<usize>) {
    let chunks = chunk_text_by_words(&gen_n_words(input_size), size, overlap);
    assert_eq!(chunks.iter().map(|x| word_count(x)).collect::<Vec<usize>>(), expected_sizes);
    assert_eq!(chunks.len(), expected_sizes.len());
    let total_overlap = overlap * (expected_sizes.len() - 1);
    let total_size = chunks.iter().map(|x| word_count(x)).sum::<usize>();
    assert_eq!(total_size, input_size + total_overlap);
}

#[test]
fn chunk_sizes_6910_6500_200() {
    check_chunk_sizes(6910, 6500, 200, vec![6500, 610]);
}

#[test]
fn chunk_sizes_1200_1500_200() {
    check_chunk_sizes(1200, 1500, 200, vec![1200]);
}

#[test]
fn chunk_sizes_6600_6500_200() {
    check_chunk_sizes(6600, 6500, 200, vec![6500, 300]);
}

#[test]
fn chunk_sizes_7000_3000_500() {
    check_chunk_sizes(7000, 3000, 500, vec![3000, 3000, 2000]);
}

#[test]
fn chunk_sizes_12999_6500_0() {
    check_chunk_sizes(12999, 6500, 0, vec![6500, 6499]);
}

#[test]
fn chunk_sizes_14_5_2() {
    check_chunk_sizes(14, 5, 2, vec![5, 5, 5, 5]);
}

#[test]
fn chunk_sizes_16_5_2() {
    check_chunk_sizes(16, 5, 2, vec![5, 5, 5, 5, 4]);
}

#[test]
fn chunk_sizes_66000_10000_100() {
    check_chunk_sizes(66000, 10_000, 100, vec![10000, 10000, 10000, 10000, 10000, 10000, 6600]);
}

#[test]
fn chunk_sizes_5_3_1() {
    check_chunk_sizes(5, 3, 1, vec![3, 3]);
}

#[test]
fn chunk_sizes_5_2_1() {
    check_chunk_sizes(5, 2, 1, vec![2, 2, 2, 2]);
}

#[test]
fn overlap_is_in_total_length() {
    let input: Vec<u32> = (0..37).collect();
    for (size, overlap) in [(5, 2), (10, 3), (7, 0), (37, 1), (3, 5), (0, 0), (1, 0)] {
        let chunks = chunk_items(&input, size, overlap);
        let total: usize = chunks.iter().map(|c| c.len()).sum();
        assert_eq!(total, input.len() + overlap * (chunks.len() - 1));
    }
}

#[test]
fn neighbouring_chunks_overlap() {
    let input: Vec<u32> = (0..23).collect();
    let (size, overlap) = (6, 2);
    let chunks = chunk_items(&input, size, overlap);
    assert!(chunks.len() > 2);
    for w in chunks.windows(2) {
        assert_eq!(w[0][size - overlap..], w[1][..overlap]);
    }
}

#[test]
fn no_overlap_concat_is_identity() {
    let input: Vec<u32> = (0..19).collect();
    let chunks = chunk_items(&input, 4, 0);
    assert_eq!(chunks.concat(), input);
}

#[test]
fn fallback_returns_single_chunk_when_step_invalid() {
    let input: Vec<u8> = vec![1, 2, 3];
    assert_eq!(chunk_items(&input, 2, 2), vec![input.as_slice()]);
    assert_eq!(chunk_items(&input, 1, 2), vec![input.as_slice()]);
    assert_eq!(chunk_items(&input, 3, 0), vec![input.as_slice()]);
}

#[test]
fn reconstruction_identity_with_overlap() {
    let input: Vec<usize> = (0..29).collect();
    let overlap = 3;
    let chunks = chunk_items(&input, 8, overlap);
    let mut combined: Vec<usize> = chunks[0].to_vec();
    for c in chunks.iter().skip(1) {
        combined.extend_from_slice(&c[overlap..]);
    }
    assert_eq!(combined, input);
}

#[test]
fn empty_input_always_single_empty_chunk() {
    for (chunk, overlap) in [(0, 0), (3, 1), (1, 5)] {
        let chunks = chunk_items::<usize>(&[], chunk, overlap);
        assert_eq!(chunks.len(), 1);
        assert!(chunks[0].is_empty());
    }
}

#[test]
fn chars_chunks_of_summary() {
    let s = "héllo wörld";
    assert_eq!(chunk_text_by_chars(s, 4, 0), convert(["héll", "o wö", "rld"]));
    assert_eq!(chunk_text_by_chars(s, 4, 1), convert(["héll", "lo w", "wörl", "ld"]));
}

#[test]
fn chunk_longer_than_input_is_single_chunk() {
    let input: Vec<u8> = vec![1, 2, 3, 4, 5];
    assert_eq!(chunk_items(&input, 7, 4), vec![input.as_slice()]);
    assert_eq!(chunk_items(&input, 6, 2), vec![input.as_slice()]);
    assert_eq!(chunk_text_by_words("a b c d e", 7, 4), convert(["a b c d e"]));
    assert_eq!(chunk_text_by_chars("abc", 10, 8), convert(["abc"]));
}

#[test]
fn chunk_laws_hold_on_every_small_input() {
    for len in 0..12usize {
        let input: Vec<usize> = (0..len).collect();
        for size in 0..15usize {
            for overlap in 0..15usize {
                let chunks = chunk_items(&input, size, overlap);
                assert!(!chunks.is_empty());
                let total: usize = chunks.iter().map(|c| c.len()).sum();
                assert_eq!(total, input.len() + overlap * (chunks.len() - 1));
                let mut combined: Vec<usize> = chunks[0].to_vec();
                for c in chunks.iter().skip(1) {
                    combined.extend_from_slice(&c[overlap..]);
                }
                assert_eq!(combined, input);
                if chunks.len() > 1 {
                    for w in chunks.windows(2) {
                        assert_eq!(w[0][size - overlap..], w[1][..overlap]);
                    }
                }
                if overlap == 0 {
                    assert_eq!(chunks.concat(), input);
                }
            }
        }
    }
}
