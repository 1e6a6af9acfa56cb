use meta::resolver::{advance, query_text, sentinel, start, Next, ResolveError, Stage};

fn resolved(n: Next) -> String {
    match n {
        Next::Resolved(s) => s,
        Next::Query(stage) => panic!("still asking for {:?}", stage),
    }
}

#[test]
fn ladder_starts_with_probe() {
    assert!(matches!(start(), Next::Query(Stage::Probe)));
}

#[test]
fn no_repository_gives_sentinel() {
    let n = advance(Stage::Probe, false, Vec::new()).unwrap();
    assert_eq!("undefined", resolved(n));
    assert_eq!("undefined", sentinel());
}

#[test]
fn repository_leads_to_tag_query() {
    let n = advance(Stage::Probe, true, Vec::new()).unwrap();
    assert!(matches!(n, Next::Query(Stage::DescribeTags)));
}

#[test]
fn tag_wins_even_past_the_tag() {
    let n = advance(Stage::DescribeTags, true, b"v1.0.81-2-ge6a4f89\n".to_vec()).unwrap();
    assert_eq!("v1.0.81-2-ge6a4f89", resolved(n));
    let n = advance(Stage::DescribeTags, true, b"  v1.0.82 \r\n".to_vec()).unwrap();
    assert_eq!("v1.0.82", resolved(n));
}

#[test]
fn no_tag_falls_back_to_commit() {
    let n = advance(Stage::DescribeTags, false, b"fatal: No names found\n".to_vec()).unwrap();
    assert!(matches!(n, Next::Query(Stage::ShortCommit)));
    let n = advance(Stage::ShortCommit, true, b"c24f925\n".to_vec()).unwrap();
    assert_eq!("c24f925", resolved(n));
}

#[test]
fn blank_output_counts_as_nothing() {
    let n = advance(Stage::DescribeTags, true, b" \n\t".to_vec()).unwrap();
    assert!(matches!(n, Next::Query(Stage::ShortCommit)));
    let n = advance(Stage::ShortCommit, true, b"\n".to_vec()).unwrap();
    assert_eq!("undefined", resolved(n));
    let n = advance(Stage::ShortCommit, false, b"c24f925\n".to_vec()).unwrap();
    assert_eq!("undefined", resolved(n));
}

#[test]
fn undecodable_output_is_an_error() {
    assert_eq!(
        Some(ResolveError::InvalidText),
        advance(Stage::DescribeTags, true, vec![0xff, 0xfe]).err()
    );
    assert_eq!(
        Some(ResolveError::InvalidText),
        advance(Stage::ShortCommit, false, vec![0xc3]).err()
    );
    assert_eq!(Err(ResolveError::InvalidText), query_text(false, vec![0x80]));
}

#[test]
fn query_text_trims() {
    assert_eq!(Ok(Some("main".to_string())), query_text(true, b"main\n".to_vec()));
    assert_eq!(Ok(None), query_text(false, b"main\n".to_vec()));
    assert_eq!(Ok(None), query_text(true, b"   ".to_vec()));
}
