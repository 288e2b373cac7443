use helix_lsp::lsp::ProgressToken;
use helix_lsp::{LspProgressMap, ProgressStatus};
use lsp_types::{WorkDoneProgress, WorkDoneProgressBegin, WorkDoneProgressReport};

fn begin(title: &str) -> WorkDoneProgress {
    WorkDoneProgress::Begin(WorkDoneProgressBegin {
        title: title.to_string(),
        cancellable: None,
        message: None,
        percentage: None,
    })
}

fn report(percentage: u32) -> WorkDoneProgress {
    WorkDoneProgress::Report(WorkDoneProgressReport {
        cancellable: None,
        message: None,
        percentage: Some(percentage),
    })
}

#[test]
fn progress_of_a_status() {
    assert_eq!(ProgressStatus::Created.progress(), None);
    assert_eq!(
        ProgressStatus::Started(begin("index")).progress(),
        Some(&begin("index"))
    );
}

#[test]
fn work_is_created_started_and_ended() {
    let mut map = LspProgressMap::new();
    let token = ProgressToken::String("index".to_string());
    let number = ProgressToken::Number(5);
    assert!(!map.is_progressing(1));
    assert!(!map.is_created(1, &token));
    assert!(map.progress_map(1).is_none());
    assert!(map.progress(1, &token).is_none());

    map.create(1, token.clone());
    assert!(map.is_created(1, &token));
    assert!(!map.is_created(1, &number));
    assert!(!map.is_created(2, &token));
    assert!(map.is_progressing(1));
    assert!(!map.is_progressing(2));
    assert!(matches!(map.progress(1, &token), Some(ProgressStatus::Created)));
    assert_eq!(map.progress_map(1).map(|tokens| tokens.len()), Some(1));

    let was = map.update(1, token.clone(), begin("index"));
    assert!(matches!(was, Some(ProgressStatus::Created)));
    assert!(map.is_created(1, &token));
    let was = map.update(1, token.clone(), report(40));
    assert!(matches!(was, Some(ProgressStatus::Started(p)) if p == begin("index")));
    assert_eq!(
        map.progress(1, &token).and_then(|status| status.progress()),
        Some(&report(40))
    );

    // a report on work that was never created starts it all the same
    let was = map.update(2, number.clone(), begin("build"));
    assert!(was.is_none());
    assert!(map.is_progressing(2));
    assert_eq!(map.progress_map(1).map(|tokens| tokens.len()), Some(1));

    let was = map.end_progress(1, &token);
    assert!(matches!(was, Some(ProgressStatus::Started(p)) if p == report(40)));
    assert!(!map.is_created(1, &token));
    assert!(!map.is_progressing(1));
    assert_eq!(map.progress_map(1).map(|tokens| tokens.len()), Some(0));
    assert!(map.end_progress(1, &token).is_none());
    assert!(map.end_progress(9, &token).is_none());
    assert!(map.progress_map(9).is_none());
    assert!(map.is_progressing(2));
}

#[test]
fn tokens_are_told_apart_by_kind_and_value() {
    let mut map = LspProgressMap::new();
    map.create(0, ProgressToken::Number(1));
    map.create(0, ProgressToken::String("1".to_string()));
    map.create(0, ProgressToken::Number(1));
    assert_eq!(map.progress_map(0).map(|tokens| tokens.len()), Some(2));
    assert!(map.is_created(0, &ProgressToken::String("1".to_string())));
    assert!(!map.is_created(0, &ProgressToken::Number(2)));
    // creating again forgets what was reported
    map.update(0, ProgressToken::Number(1), begin("x"));
    map.create(0, ProgressToken::Number(1));
    assert!(matches!(
        map.progress(0, &ProgressToken::Number(1)),
        Some(ProgressStatus::Created)
    ));
}

#[test]
fn progress_map_can_be_printed() {
    let mut map = LspProgressMap::default();
    map.create(3, ProgressToken::Number(1));
    let printed = format!("{:?}", map);
    assert!(printed.contains("Created"));
}
