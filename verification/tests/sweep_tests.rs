use skiphead::classify::classify;
use skiphead::sweep::combinate_tuples;
use skiphead::sweep::paired_tuples;
use skiphead::sweep::run_sweep;
use skiphead::sweep::sample_window;
use skiphead::sweep::summary_line_needed;
use skiphead::sweep::validate_parameters;
use skiphead::sweep::Params;
use skiphead::sweep::ValidationError;

const PNG_SIGNATURE: [u8; 8] = [0x89, 0x50, 0x4E, 0x47, 0x0D, 0x0A, 0x1A, 0x0A];

#[test]
fn test_combinate_tuple_count() {
    let skips: Vec<usize> = vec![1, 2];
    let lengths: Vec<usize> = vec![3, 4, 5];
    let offsets: Vec<usize> = vec![0, 1, 2, 6];
    let tuples = combinate_tuples(&skips, &lengths, &offsets, 7);
    assert_eq!(tuples.len(), 2 * 3 * 4);
}

#[test]
fn test_combinate_tuple_order() {
    // Outer loop over skips, middle over pick lengths, inner over offsets.
    let skips: Vec<usize> = vec![1, 2];
    let lengths: Vec<usize> = vec![3, 4, 5];
    let offsets: Vec<usize> = vec![0, 1, 2, 6];
    let tuples = combinate_tuples(&skips, &lengths, &offsets, 7);
    let expect = |skip: usize, pick_length: usize, pick_offset: usize| Params {
        skip,
        pick_offset,
        pick_length,
        file_offset: 7,
    };
    assert_eq!(tuples[0], expect(1, 3, 0));
    assert_eq!(tuples[1], expect(1, 3, 1));
    assert_eq!(tuples[4], expect(1, 4, 0));
    assert_eq!(tuples[11], expect(1, 5, 6));
    assert_eq!(tuples[12], expect(2, 3, 0));
    assert_eq!(tuples[23], expect(2, 5, 6));
}

#[test]
fn test_combinate_tuples_distinct() {
    let skips: Vec<usize> = vec![1, 2];
    let lengths: Vec<usize> = vec![3, 4];
    let offsets: Vec<usize> = vec![0, 5];
    let tuples = combinate_tuples(&skips, &lengths, &offsets, 0);
    for a in 0..tuples.len() {
        for b in (a + 1)..tuples.len() {
            assert_ne!(tuples[a], tuples[b]);
        }
    }
}

#[test]
fn test_paired_tuple_count() {
    let skips: Vec<usize> = vec![1, 2, 3];
    let lengths: Vec<usize> = vec![4, 5];
    let offsets: Vec<usize> = vec![6];
    let tuples = paired_tuples(&skips, &lengths, &offsets, 9);
    assert_eq!(tuples.len(), 3);
}

#[test]
fn test_paired_zero_padding() {
    // Shorter lists are padded with the zero sentinel, not by repeating
    // their last value.
    let skips: Vec<usize> = vec![1, 2, 3];
    let lengths: Vec<usize> = vec![4, 5];
    let offsets: Vec<usize> = vec![6];
    let tuples = paired_tuples(&skips, &lengths, &offsets, 9);
    assert_eq!(
        tuples[0],
        Params { skip: 1, pick_offset: 6, pick_length: 4, file_offset: 9 }
    );
    assert_eq!(
        tuples[1],
        Params { skip: 2, pick_offset: 0, pick_length: 5, file_offset: 9 }
    );
    assert_eq!(
        tuples[2],
        Params { skip: 3, pick_offset: 0, pick_length: 0, file_offset: 9 }
    );
}

#[test]
fn test_paired_equal_lengths() {
    let skips: Vec<usize> = vec![1, 2];
    let lengths: Vec<usize> = vec![3, 4];
    let offsets: Vec<usize> = vec![5, 6];
    let tuples = paired_tuples(&skips, &lengths, &offsets, 0);
    assert_eq!(tuples.len(), 2);
    assert_eq!(
        tuples[1],
        Params { skip: 2, pick_offset: 6, pick_length: 4, file_offset: 0 }
    );
}

#[test]
fn test_validate_ok() {
    let skips: Vec<usize> = vec![1, 2, 3];
    let lengths: Vec<usize> = vec![1];
    assert_eq!(validate_parameters(&skips, &lengths), Ok(()));
}

#[test]
fn test_validate_empty_lists() {
    let skips: Vec<usize> = Vec::new();
    let lengths: Vec<usize> = Vec::new();
    assert_eq!(validate_parameters(&skips, &lengths), Ok(()));
}

#[test]
fn test_validate_zero_skip() {
    let skips: Vec<usize> = vec![1, 0, 3];
    let lengths: Vec<usize> = vec![1];
    assert_eq!(
        validate_parameters(&skips, &lengths),
        Err(ValidationError::ZeroSkip)
    );
}

#[test]
fn test_validate_zero_pick_length() {
    let skips: Vec<usize> = vec![1, 2];
    let lengths: Vec<usize> = vec![1, 0];
    assert_eq!(
        validate_parameters(&skips, &lengths),
        Err(ValidationError::ZeroPickLength)
    );
}

#[test]
fn test_validate_zero_in_both_reports_skip_first() {
    let skips: Vec<usize> = vec![0];
    let lengths: Vec<usize> = vec![0];
    assert_eq!(
        validate_parameters(&skips, &lengths),
        Err(ValidationError::ZeroSkip)
    );
}

#[test]
fn test_sample_window_degenerate_zero_skip() {
    let buf: Vec<u8> = vec![1u8; 32];
    let w = sample_window(
        &buf,
        Params { skip: 0, pick_offset: 0, pick_length: 4, file_offset: 0 },
    );
    assert!(w.is_empty());
}

#[test]
fn test_sample_window_degenerate_zero_pick_length() {
    let buf: Vec<u8> = vec![1u8; 32];
    let w = sample_window(
        &buf,
        Params { skip: 2, pick_offset: 0, pick_length: 0, file_offset: 0 },
    );
    assert!(w.is_empty());
}

#[test]
fn test_classify_zeros_is_binary() {
    let data: Vec<u8> = vec![0u8; 1000];
    let c = classify(&data);
    assert!(!c.informative);
    assert_eq!(c.name, "Arbitrary Binary Data");
    assert_eq!(c.short_code.as_deref(), Some("BIN"));
}

#[test]
fn test_classify_png_signature_is_informative() {
    let data: Vec<u8> = PNG_SIGNATURE.to_vec();
    let c = classify(&data);
    assert!(c.informative);
    assert_eq!(c.name, "Portable Network Graphics");
    assert_eq!(c.short_code.as_deref(), Some("PNG"));
}

#[test]
fn test_run_sweep_all_binary_with_filter() {
    // Only-non-binary filtering with a sweep in which every window is
    // arbitrary binary data: no step is reported, and the one summary line
    // is owed.
    let buf: Vec<u8> = vec![0u8; 64];
    let skips: Vec<usize> = vec![1, 2];
    let lengths: Vec<usize> = vec![4, 4];
    let offsets: Vec<usize> = vec![0, 1];
    let tuples = paired_tuples(&skips, &lengths, &offsets, 0);
    let outcome = run_sweep(&buf, &tuples, true);
    assert_eq!(outcome.steps.len(), 2);
    assert!(outcome.steps.iter().all(|s| !s.report));
    assert!(outcome.steps.iter().all(|s| !s.class.informative));
    assert!(!outcome.found_non_binary);
    assert!(summary_line_needed(true, outcome.found_non_binary));
}

#[test]
fn test_run_sweep_without_filter_reports_binary() {
    let buf: Vec<u8> = vec![0u8; 64];
    let tuples = vec![Params { skip: 1, pick_offset: 0, pick_length: 4, file_offset: 0 }];
    let outcome = run_sweep(&buf, &tuples, false);
    assert_eq!(outcome.steps.len(), 1);
    assert!(outcome.steps[0].report);
    assert!(!outcome.steps[0].class.informative);
    assert!(!outcome.found_non_binary);
    assert!(!summary_line_needed(false, outcome.found_non_binary));
}

#[test]
fn test_run_sweep_finds_non_binary() {
    // One tuple retains the whole buffer, which is a PNG signature.
    let buf: Vec<u8> = PNG_SIGNATURE.to_vec();
    let tuples = vec![
        Params { skip: 8, pick_offset: 0, pick_length: 8, file_offset: 0 },
        Params { skip: 8, pick_offset: 6, pick_length: 1, file_offset: 0 },
    ];
    let outcome = run_sweep(&buf, &tuples, true);
    assert_eq!(outcome.steps.len(), 2);
    assert!(outcome.steps[0].report);
    assert!(outcome.steps[0].class.informative);
    assert_eq!(outcome.steps[0].window, PNG_SIGNATURE.to_vec());
    assert!(!outcome.steps[1].report);
    assert!(outcome.found_non_binary);
    assert!(!summary_line_needed(true, outcome.found_non_binary));
}

#[test]
fn test_run_sweep_step_windows_match_sampler() {
    let buf: Vec<u8> = (0..=255u8).collect();
    let tuples = vec![Params { skip: 4, pick_offset: 0, pick_length: 2, file_offset: 0 }];
    let outcome = run_sweep(&buf, &tuples, false);
    let direct = skiphead::sampler::skiped_and_picked_file_buf(4, 0, 2, 0, &buf);
    assert_eq!(outcome.steps[0].window, direct);
    assert_eq!(outcome.steps[0].params, tuples[0]);
}
