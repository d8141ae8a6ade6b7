use check_key::PidGenResult;
use check_key::SearchDriver;
use check_key::SearchStatus;
use check_key::PROGRESS_BLOCK;

const ALPHABET: &[u8] = b"BCDFGHJKMPQRTVWXY2346789";

#[test]
fn outcome_classification() {
    assert!(PidGenResult::Valid.is_valid());
    assert!(!PidGenResult::PKeyMissing.is_valid());
    assert!(!PidGenResult::InvalidArguments.is_valid());
    assert!(!PidGenResult::InvalidKey.is_valid());
    assert!(!PidGenResult::BlackListedKey.is_valid());
    assert!(!PidGenResult::UnknownError(0xDEAD).is_valid());
}

#[test]
fn status_codes_classify_to_their_outcomes() {
    assert_eq!(PidGenResult::from_status(0), PidGenResult::Valid);
    assert_eq!(PidGenResult::from_status(0x80070002), PidGenResult::PKeyMissing);
    assert_eq!(PidGenResult::from_status(0x80070057), PidGenResult::InvalidArguments);
    assert_eq!(PidGenResult::from_status(0x8A010101), PidGenResult::InvalidKey);
    assert_eq!(PidGenResult::from_status(0x0000000F), PidGenResult::BlackListedKey);
    assert_eq!(PidGenResult::from_status(77), PidGenResult::UnknownError(77));
}

#[test]
fn unknown_error_code_is_preserved() {
    let outcome = PidGenResult::UnknownError(0x8A01_0101);
    match outcome {
        PidGenResult::UnknownError(code) => assert_eq!(code, 0x8A01_0101),
        _ => panic!("expected the unknown-error variant"),
    }
}

#[test]
fn stops_at_first_valid_with_exact_attempt_count() {
    // One masked position over the 24-symbol alphabet; the stub oracle
    // accepts only the candidate whose digit value is 7, so the search must
    // stop at attempt 8 with exactly that key.
    let template = b"BCDFG-HJKMP-QRTVW-XY234-6789?";
    let mut expected = template.to_vec();
    let last = expected.len() - 1;
    expected[last] = ALPHABET[7];

    let mut driver = SearchDriver::new(template.to_vec(), b'?', ALPHABET.to_vec())
        .expect("setup should succeed");
    assert_eq!(driver.total(), 24);

    let mut oracle_calls: u64 = 0;
    while driver.status() == SearchStatus::Running {
        let candidate = driver.current_candidate();
        oracle_calls += 1;
        let outcome = if candidate == expected {
            PidGenResult::Valid
        } else {
            PidGenResult::InvalidKey
        };
        driver.record(outcome);
    }
    assert_eq!(driver.status(), SearchStatus::Succeeded);
    assert_eq!(oracle_calls, 8);
    assert_eq!(driver.attempts(), 8);
    assert_eq!(driver.found_key(), Some(&expected));
}

#[test]
fn exhausts_after_exactly_n_pow_k_calls() {
    let mut driver = SearchDriver::new(b"k:??".to_vec(), b'?', b"XYZ".to_vec())
        .expect("setup should succeed");
    let mut oracle_calls: u64 = 0;
    while driver.status() == SearchStatus::Running {
        let _candidate = driver.current_candidate();
        oracle_calls += 1;
        driver.record(PidGenResult::InvalidKey);
    }
    assert_eq!(driver.status(), SearchStatus::Exhausted);
    assert_eq!(oracle_calls, 9);
    assert_eq!(driver.attempts(), 9);
    assert_eq!(driver.found_key(), None);
}

#[test]
fn continues_past_non_guess_outcomes() {
    // Setup-style oracle outcomes are data, not faults: every non-valid
    // outcome is a continue signal, so the search keeps going.
    let mut driver = SearchDriver::new(b"?".to_vec(), b'?', b"AB".to_vec())
        .expect("setup should succeed");
    driver.record(PidGenResult::PKeyMissing);
    assert_eq!(driver.status(), SearchStatus::Running);
    driver.record(PidGenResult::UnknownError(3));
    assert_eq!(driver.status(), SearchStatus::Exhausted);
    assert_eq!(driver.attempts(), 2);
}

#[test]
fn single_candidate_space_succeeds_on_template() {
    let mut driver = SearchDriver::new(b"NO-MASK".to_vec(), b'?', ALPHABET.to_vec())
        .expect("setup should succeed");
    assert_eq!(driver.total(), 1);
    let candidate = driver.current_candidate();
    assert_eq!(candidate, b"NO-MASK".to_vec());
    driver.record(PidGenResult::Valid);
    assert_eq!(driver.status(), SearchStatus::Succeeded);
    assert_eq!(driver.attempts(), 1);
    assert_eq!(driver.found_key(), Some(&b"NO-MASK".to_vec()));
}

#[test]
fn progress_is_batched_and_never_overstates() {
    // 40 symbols and two masked positions: 1600 attempts, forcing one full
    // block report mid-run and a flush at the end.
    let alphabet = b"ABCDEFGHIJKLMNOPQRSTUVWXYZabcdefghijklmn";
    assert_eq!(alphabet.len(), 40);
    let mut driver = SearchDriver::new(b"??".to_vec(), b'?', alphabet.to_vec())
        .expect("setup should succeed");
    assert_eq!(driver.total(), 1600);

    let mut shown: u64 = 0;
    let mut first_report_at: Option<u64> = None;
    while driver.status() == SearchStatus::Running {
        let _candidate = driver.current_candidate();
        driver.record(PidGenResult::InvalidKey);
        let due = driver.progress_due();
        shown += due;
        if due > 0 && first_report_at.is_none() {
            first_report_at = Some(driver.attempts());
        }
        // Reported progress never runs ahead of work actually done.
        assert!(shown <= driver.attempts());
    }
    let final_due = driver.progress_due();
    shown += final_due;
    assert_eq!(driver.status(), SearchStatus::Exhausted);
    // The first batch appears exactly when a full block has accumulated.
    assert_eq!(first_report_at, Some(PROGRESS_BLOCK));
    // The final reported value equals the true attempt count.
    assert_eq!(shown, 1600);
    assert_eq!(shown, driver.attempts());
}
