use satrelay::datafile::{parse_line, split_fields, starts_with_route, Field, Record};

fn spans(line: &str) -> Vec<(usize, usize)> {
    split_fields(line.as_bytes()).iter().map(|f| (f.start, f.end)).collect()
}

fn texts(line: &str) -> Vec<String> {
    split_fields(line.as_bytes()).iter().map(|f| line[f.start..f.end].to_string()).collect()
}

fn text(line: &str, field: Field) -> String {
    line[field.start..field.end].to_string()
}

#[test]
fn split_finds_each_stretch_between_commas() {
    assert_eq!(spans("ab,c,def"), vec![(0, 2), (3, 4), (5, 8)]);
    assert_eq!(texts("SAT0,68.9,-153.5,626.1"), vec!["SAT0", "68.9", "-153.5", "626.1"]);
}

#[test]
fn split_of_a_line_without_comma_is_one_field() {
    assert_eq!(spans("header"), vec![(0, 6)]);
    assert_eq!(spans(""), vec![(0, 0)]);
}

#[test]
fn split_keeps_empty_fields() {
    assert_eq!(spans(","), vec![(0, 0), (1, 1)]);
    assert_eq!(spans("a,,b,"), vec![(0, 1), (2, 2), (3, 4), (5, 5)]);
    assert_eq!(spans(",x"), vec![(0, 0), (1, 2)]);
}

#[test]
fn split_agrees_with_str_split() {
    for line in ["", ",", "a", "a,b", ",,", "ROUTE,1,2,3,4", "x,,y,", "no commas here"] {
        let expected: Vec<String> = line.split(",").map(|s| s.to_string()).collect();
        assert_eq!(texts(line), expected);
    }
}

#[test]
fn route_tag_is_a_prefix_of_five_letters() {
    assert!(starts_with_route(b"ROUTE"));
    assert!(starts_with_route(b"ROUTE,1,2,3,4"));
    assert!(starts_with_route(b"ROUTER7,1,2,3"));
    assert!(!starts_with_route(b"ROUT"));
    assert!(!starts_with_route(b"route,1,2,3,4"));
    assert!(!starts_with_route(b" ROUTE,1,2,3,4"));
    assert!(!starts_with_route(b""));
}

#[test]
fn first_line_is_the_header_whatever_it_holds() {
    assert_eq!(parse_line(0, b"#SEED: 0.42"), Some(Record::Header));
    assert_eq!(parse_line(0, b"ROUTE,1,2,3,4"), Some(Record::Header));
    assert_eq!(parse_line(0, b""), Some(Record::Header));
}

#[test]
fn route_line_gives_its_four_numbers() {
    let line = "ROUTE,51.5,-0.12,40.7,-74.0";
    match parse_line(3, line.as_bytes()) {
        Some(Record::Route { start_latitude, start_longitude, end_latitude, end_longitude }) => {
            assert_eq!(text(line, start_latitude), "51.5");
            assert_eq!(text(line, start_longitude), "-0.12");
            assert_eq!(text(line, end_latitude), "40.7");
            assert_eq!(text(line, end_longitude), "-74.0");
        }
        other => panic!("not a route: {:?}", other),
    }
}

#[test]
fn relay_line_gives_id_and_three_numbers() {
    let line = "SAT12,-8.25,170.5,412.75,ignored";
    match parse_line(1, line.as_bytes()) {
        Some(Record::Relay { id, latitude, longitude, altitude }) => {
            assert_eq!(text(line, id), "SAT12");
            assert_eq!(text(line, latitude), "-8.25");
            assert_eq!(text(line, longitude), "170.5");
            assert_eq!(text(line, altitude), "412.75");
        }
        other => panic!("not a relay point: {:?}", other),
    }
}

#[test]
fn short_lines_give_no_record() {
    assert_eq!(parse_line(1, b"SAT1,2.0,3.0"), None);
    assert_eq!(parse_line(1, b""), None);
    assert_eq!(parse_line(2, b"ROUTE,1,2,3"), None);
    assert_eq!(parse_line(2, b"ROUTE"), None);
}

#[test]
fn exact_field_counts_are_enough() {
    assert_eq!(
        parse_line(9, b"a,b,c,d"),
        Some(Record::Relay {
            id: Field { start: 0, end: 1 },
            latitude: Field { start: 2, end: 3 },
            longitude: Field { start: 4, end: 5 },
            altitude: Field { start: 6, end: 7 },
        })
    );
    assert_eq!(
        parse_line(9, b"ROUTE,,,,"),
        Some(Record::Route {
            start_latitude: Field { start: 6, end: 6 },
            start_longitude: Field { start: 7, end: 7 },
            end_latitude: Field { start: 8, end: 8 },
            end_longitude: Field { start: 9, end: 9 },
        })
    );
}
