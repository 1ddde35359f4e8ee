use sortviz::controller::AppError;
use sortviz::controller::AppState;
use sortviz::controller::VisualizationMode;
use sortviz::harness::compare_sorts;
use sortviz::harness::test_sort_performance;
use sortviz::parser::Command;
use sortviz::parser::CommandParser;
use sortviz::parser::ParseError;
use sortviz::parser::tokenize;
use sortviz::render::GraphVisualization;
use sortviz::render::ListVisualization;

#[test]
fn test_parse_simple_commands() {
    assert_eq!(CommandParser::parse(".randomize"), Ok(Command::Randomize));
    assert_eq!(CommandParser::parse(".list"), Ok(Command::List));
    assert_eq!(CommandParser::parse(".graphs"), Ok(Command::Graphs));
    assert_eq!(CommandParser::parse(".quicksort"), Ok(Command::QuickSort));
    assert_eq!(CommandParser::parse(".mergesort"), Ok(Command::MergeSort));
    assert_eq!(CommandParser::parse(".timsort"), Ok(Command::TimSort));
    assert_eq!(CommandParser::parse(".radix"), Ok(Command::RadixSort));
    assert_eq!(CommandParser::parse(".heapsort"), Ok(Command::HeapSort));
}

#[test]
fn test_parse_arguments() {
    assert_eq!(
        CommandParser::parse(".sort quicksort"),
        Ok(Command::Sort(String::from("quicksort")))
    );
    assert_eq!(
        CommandParser::parse(".compare quicksort mergesort"),
        Ok(Command::Compare(String::from("quicksort"), String::from("mergesort")))
    );
    assert_eq!(
        CommandParser::parse(".readlist data.txt"),
        Ok(Command::ReadList(String::from("data.txt")))
    );
    assert_eq!(
        CommandParser::parse(".generate 5 1-5 nr"),
        Ok(Command::Generate { count: Some(5), range: (1, 5), no_repeats: true })
    );
    assert_eq!(
        CommandParser::parse(".generate"),
        Ok(Command::Generate { count: None, range: (0, 10), no_repeats: false })
    );
}

#[test]
fn test_parse_errors() {
    assert!(matches!(CommandParser::parse(""), Err(ParseError::UnknownCommand(_))));
    assert!(matches!(CommandParser::parse(".bogus"), Err(ParseError::UnknownCommand(_))));
    assert!(matches!(CommandParser::parse(".sort"), Err(ParseError::MissingArgument(_))));
    assert!(matches!(CommandParser::parse(".compare quicksort"), Err(ParseError::MissingArgument(_))));
    assert!(matches!(CommandParser::parse(".speed"), Err(ParseError::MissingArgument(_))));
    assert!(matches!(CommandParser::parse(".generate 5-2"), Err(ParseError::InvalidRange(5, 2))));
    assert!(matches!(CommandParser::parse(".generate x"), Err(ParseError::InvalidArgument(_))));
}

#[test]
fn test_parse_speed() {
    // zero is rejected as an invalid argument; this pins the open choice
    assert!(matches!(CommandParser::parse(".speed 0"), Err(ParseError::InvalidArgument(_))));
    assert!(matches!(CommandParser::parse(".speed 0.0"), Err(ParseError::InvalidArgument(_))));
    assert_eq!(CommandParser::parse(".speed 1.5"), Ok(Command::Speed(150)));
    assert_eq!(CommandParser::parse(".speed 2"), Ok(Command::Speed(200)));
    assert_eq!(CommandParser::parse(".speed 0.25"), Ok(Command::Speed(25)));
    assert!(matches!(CommandParser::parse(".speed fast"), Err(ParseError::InvalidArgument(_))));
}

#[test]
fn test_tokenize() {
    let toks = tokenize("  a bb\tccc ", false);
    assert_eq!(toks, vec!["a", "bb", "ccc"]);
    let toks2 = tokenize("3, 1 2\n5", true);
    assert_eq!(toks2, vec!["3", "1", "2", "5"]);
}

#[test]
fn test_compare_report() {
    let data = vec![5, 2, 4, 6, 3, 10, 7, 1];
    let lines = compare_sorts("quicksort", "mergesort", &data).unwrap();
    assert_eq!(lines.len(), 7);
    assert!(lines[3].starts_with("quicksort"));
    assert!(lines[4].starts_with("mergesort"));
    let verdict = &lines[6];
    assert!(verdict.contains("faster by") || verdict.as_str() == "tie");
    // unknown algorithm aborts before any run
    assert!(compare_sorts("quicksort", "bogus", &data).is_err());
}

#[test]
fn test_performance_counts_nonnegative() {
    let (_, compares, swaps) = test_sort_performance("heapsort", vec![4, 2, 6, 1]).unwrap();
    assert!(compares > 0);
    let _ = swaps;
    assert!(test_sort_performance("bogus", vec![1, 2]).is_err());
}

#[test]
fn test_controller_sort_flow() {
    let mut app = AppState::new();
    assert_eq!(app.data, vec![5, 2, 4, 6, 3, 10, 7, 1]);
    let out = app.execute_command(Command::QuickSort).unwrap();
    assert_eq!(app.data, vec![1, 2, 3, 4, 5, 6, 7, 10]);
    assert!(out.frames.len() >= 1);
    assert!(matches!(
        app.execute_command(Command::Sort(String::from("bogus"))),
        Err(AppError::UnknownAlgorithm(_))
    ));
}

#[test]
fn test_controller_radix_precondition() {
    let mut app = AppState::new();
    app.data = vec![3, -1, 2];
    assert!(matches!(
        app.execute_command(Command::RadixSort),
        Err(AppError::PreconditionViolation(_))
    ));
    assert_eq!(app.data, vec![3, -1, 2]);
}

#[test]
fn test_sort_name_case_folded() {
    // algorithm names match case-insensitively, as the original surface did
    let mut app = AppState::new();
    app.execute_command(Command::Sort(String::from("QuickSort"))).unwrap();
    assert_eq!(app.data, vec![1, 2, 3, 4, 5, 6, 7, 10]);
    let data = vec![5, 2, 4];
    assert!(compare_sorts("quicksort", "MERGESORT", &data).is_err());
}

#[test]
fn test_compare_too_small() {
    let mut app = AppState::new();
    app.data = vec![7];
    let out = app
        .execute_command(Command::Compare(String::from("quicksort"), String::from("mergesort")))
        .unwrap();
    assert_eq!(out.lines[0], "Array is too small to compare");
    assert_eq!(app.data, vec![7]);
}

#[test]
fn test_controller_too_small() {
    let mut app = AppState::new();
    app.data = vec![7];
    let out = app.execute_command(Command::HeapSort).unwrap();
    assert_eq!(out.lines[0], "Array is too small to sort");
    assert_eq!(app.data, vec![7]);
}

#[test]
fn test_controller_modes_and_speed() {
    let mut app = AppState::new();
    app.execute_command(Command::Graphs).unwrap();
    assert_eq!(app.visualization_mode, VisualizationMode::Graph);
    app.execute_command(Command::List).unwrap();
    assert_eq!(app.visualization_mode, VisualizationMode::List);
    app.execute_command(Command::Speed(50)).unwrap();
    assert_eq!(app.speed_hundredths, 50);
}

#[test]
fn test_controller_readlist_roundtrip() {
    let mut app = AppState::new();
    let out = app.execute_command(Command::ReadList(String::from("numbers.txt"))).unwrap();
    assert_eq!(out.needs_file, Some(String::from("numbers.txt")));
    // good file text replaces the array
    app.apply_file_text("3, 1 2\n5").unwrap();
    assert_eq!(app.data, vec![3, 1, 2, 5]);
    // bad file text is a file error and the array is kept
    let before = app.data.clone();
    assert!(matches!(app.apply_file_text("3 x 5"), Err(AppError::FileError(_))));
    assert_eq!(app.data, before);
}

#[test]
fn test_list_renderer_frame() {
    let mut viz = ListVisualization::new(vec![3, 1, 2]);
    viz.reset_stats();
    let frame = viz.render_step(vec![1, 3, 2], vec![true, true, false]);
    assert_eq!(frame.lines[0], "[1, 3, 2]");
    assert_eq!(frame.lines[1], " -  -   ");
    assert_eq!(frame.delay_ms, 0);
    viz.set_speed(50);
    let slow = viz.render_step(vec![1, 2, 3], vec![false, false, false]);
    assert_eq!(slow.delay_ms, 200);
    let last = viz.final_render();
    assert_eq!(last[0], "[1, 2, 3]");
    assert_eq!(last[4], "-> sorting complete!");
}

#[test]
fn test_graph_renderer_frame() {
    let mut viz = GraphVisualization::new(vec![1, 3, 2]);
    viz.reset_stats();
    let frame = viz.render_step(vec![1, 3, 2], vec![false, false, false]);
    // three grid rows (max height 3), then separator, stats, separator, blank
    assert_eq!(frame.lines.len(), 7);
    assert_eq!(frame.lines[0], " █ ");
    assert_eq!(frame.lines[1], " ██");
    assert_eq!(frame.lines[2], "███");
}
