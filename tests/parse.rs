use plunder::parse::{ParseError, ParseTable, Parser};

#[derive(Clone, Copy, Debug, PartialEq, Eq)]
enum Clip {
    Play,
    Pause,
    Stop,
    Resume,
}

fn table(bindings: &[(&str, Vec<Clip>)]) -> ParseTable<Clip> {
    ParseTable::insert_sort(
        bindings
            .iter()
            .map(|(key, events)| (key.to_string(), events.clone()))
            .collect(),
    )
}

fn chars(s: &str) -> Vec<char> {
    s.chars().collect()
}

#[test]
fn test_parse_table() {
    let parse_table = table(&[
        ("[", vec![Clip::Play]),
        ("]", vec![Clip::Stop]),
        (")", vec![Clip::Pause]),
        ("(", vec![Clip::Resume]),
    ]);

    let pattern_str = "[......][......)        (......]";

    assert_eq!(
        parse_table
            .parse(&chars(pattern_str))
            .into_iter()
            .map(|(i, _)| i)
            .collect::<Vec<_>>(),
        Vec::from([0, 7, 8, 15, 24, 31,])
    )
}

#[test]
fn play_stop_scenario() {
    let parse_table = table(&[("[", vec![Clip::Play]), ("]", vec![Clip::Stop])]);
    assert_eq!(
        parse_table.parse(&chars("[...]")),
        vec![(0, Clip::Play), (4, Clip::Stop)]
    );
}

#[test]
fn parsing_twice_gives_the_same_pairs() {
    let parse_table = table(&[("ab", vec![Clip::Play]), ("b", vec![Clip::Stop])]);
    let pattern = chars("abxb ab");
    let first = parse_table.parse(&pattern);
    let second = parse_table.parse(&pattern);
    assert_eq!(first, second);
    assert_eq!(first, vec![(0, Clip::Play), (3, Clip::Stop), (5, Clip::Play)]);
}

#[test]
fn shorter_triggers_are_tried_first() {
    let parse_table = table(&[("[]", vec![Clip::Resume]), ("[", vec![Clip::Play])]);
    assert_eq!(parse_table.parse(&chars("[]")), vec![(0, Clip::Play)]);
}

#[test]
fn a_binding_with_several_events_records_each_at_one_offset() {
    let parse_table = table(&[("x", vec![Clip::Play, Clip::Pause]), ("y", vec![])]);
    assert_eq!(
        parse_table.parse(&chars(".x.y")),
        vec![(1, Clip::Play), (1, Clip::Pause)]
    );
}

#[test]
fn multi_character_trigger_jumps_past_its_match() {
    let parse_table = table(&[("aa", vec![Clip::Play])]);
    assert_eq!(
        parse_table.parse(&chars("aaa aa")),
        vec![(0, Clip::Play), (4, Clip::Play)]
    );
}

#[test]
fn single_binding_repeats_at_every_offset() {
    let parse_table = ParseTable::Single(Clip::Stop);
    assert_eq!(
        parse_table.parse(&chars("a b")),
        vec![(0, Clip::Stop), (1, Clip::Stop), (2, Clip::Stop)]
    );
    assert_eq!(parse_table.parse(&chars("")), vec![]);
}

#[test]
fn insert_sort_orders_by_trigger_length() {
    let parse_table = table(&[
        ("ccc", vec![Clip::Play]),
        ("a", vec![Clip::Stop]),
        ("bb", vec![Clip::Pause]),
        ("d", vec![Clip::Resume]),
    ]);
    match parse_table {
        ParseTable::Triggers(bindings) => {
            let keys: Vec<&str> = bindings.iter().map(|(k, _)| k.as_str()).collect();
            assert_eq!(keys, vec!["a", "d", "bb", "ccc"]);
        }
        ParseTable::Single(_) => panic!("expected triggers"),
    }
}

#[test]
fn parser_without_a_table_fails() {
    let parser: Parser<Clip> = Parser::new();
    assert_eq!(parser.parse(&chars("[")), Err(ParseError::NoParseTable));
}

#[test]
fn parser_parses_after_extend() {
    let mut parser = Parser::new();
    parser.extend(table(&[("[", vec![Clip::Play])]));
    assert_eq!(parser.parse(&chars(" [")), Ok(vec![(1, Clip::Play)]));
}
