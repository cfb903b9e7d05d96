use rustvent2023::day08::{
    checked_lcm, checked_parse, checked_part_one, checked_part_two_way2, combine, euclid,
    find_cycle, lcm, parse, part_one, part_two_way2, Dir, Network, Node,
};

const TEST: &str = "RL

AAA = (BBB, CCC)
BBB = (DDD, EEE)
CCC = (ZZZ, GGG)
DDD = (DDD, DDD)
EEE = (EEE, EEE)
GGG = (GGG, GGG)
ZZZ = (ZZZ, ZZZ)
";
const TEST2: &str = "LLR

AAA = (BBB, BBB)
BBB = (AAA, ZZZ)
ZZZ = (ZZZ, ZZZ)
";

const TEST3: &str = "LR

11A = (11B, XXX)
11B = (XXX, 11Z)
11Z = (11B, XXX)
22A = (22B, XXX)
22B = (22C, 22C)
22C = (22Z, 22Z)
22Z = (22B, 22B)
XXX = (XXX, XXX)
";

fn cs(s: &str) -> Vec<char> {
    s.chars().collect()
}

fn node(name: &str, left: &str, right: &str) -> Node {
    Node { name: cs(name), left: cs(left), right: cs(right) }
}

#[test]
fn day08_test_parse() {
    let (dirs, map) = parse(TEST);
    assert_eq!(dirs, vec![Dir::R, Dir::L]);
    assert_eq!(map.get("CCC"), Some(("ZZZ".to_string(), "GGG".to_string())));
}

#[test]
fn day08_test_part_one() {
    let (dirs, map) = parse(TEST);
    println!("{:#?}", map);
    assert_eq!(part_one(&dirs, &map), 2);

    let (dirs, map) = parse(TEST2);
    assert_eq!(part_one(&dirs, &map), 6);
}

#[test]
fn test_part_two_smarter() {
    let (dirs, map) = parse(TEST3);
    assert_eq!(part_two_way2(&dirs, &map), 6);
}

#[test]
fn gcd_and_lcm() {
    assert_eq!(euclid(12, 18), 6);
    assert_eq!(euclid(18, 12), 6);
    assert_eq!(euclid(7, 0), 7);
    assert_eq!(euclid(0, 7), 7);
    assert_eq!(euclid(0, 0), 0);
    assert_eq!(lcm(4, 6), 12);
    assert_eq!(lcm(2, 3), 6);
    assert_eq!(lcm(5, 5), 5);
    assert_eq!(checked_lcm(4, 6), Some(12));
    assert_eq!(checked_lcm(0, 0), None);
    assert_eq!(checked_lcm(usize::MAX, 2), None);
}

#[test]
fn the_combined_length_is_a_multiple_of_each() {
    let cycles = vec![4usize, 6, 10, 15];
    let all = combine(&cycles).unwrap();
    assert_eq!(all, 60);
    for c in cycles {
        assert_eq!(all % c, 0);
    }
    assert_eq!(combine(&vec![]), None);
    assert_eq!(combine(&vec![7]), Some(7));
}

#[test]
fn cycle_lengths_of_the_walks() {
    let (dirs, map) = parse(TEST3);
    assert_eq!(find_cycle(&dirs, &map, &cs("11A")), Some(2));
    assert_eq!(find_cycle(&dirs, &map, &cs("22A")), Some(6));
    assert_eq!(find_cycle(&dirs, &map, &cs("XXX")), Some(2));
    assert_eq!(find_cycle(&dirs, &map, &cs("QQQ")), None);
}

#[test]
fn a_single_command_has_its_cycles_too() {
    let map = Network { nodes: vec![node("11A", "11A", "11A")] };
    assert_eq!(find_cycle(&vec![Dir::L], &map, &cs("11A")), Some(1));
    assert_eq!(checked_part_two_way2(&vec![Dir::L], &map), Some(1));
    assert_eq!(find_cycle(&vec![], &map, &cs("11A")), None);
    let map = Network {
        nodes: vec![node("11A", "11B", "11B"), node("11B", "11C", "11C"), node("11C", "11B", "11B")],
    };
    // one step into a cycle of two
    assert_eq!(find_cycle(&vec![Dir::L], &map, &cs("11A")), Some(2));
    // a return at the end of a round of commands is seen as well
    assert_eq!(find_cycle(&vec![Dir::L, Dir::R], &map, &cs("11B")), Some(2));
}

#[test]
fn walks_that_do_not_arrive() {
    let map = Network { nodes: vec![node("AAA", "AAA", "BBB"), node("BBB", "AAA", "QQQ")] };
    assert_eq!(checked_part_one(&vec![Dir::L], &map), None);
    assert_eq!(checked_part_one(&vec![Dir::R], &map), None);
    assert_eq!(checked_part_one(&vec![], &map), None);
    let map = Network { nodes: vec![node("AAA", "ZZZ", "ZZZ")] };
    assert_eq!(checked_part_one(&vec![Dir::L], &map), Some(1));
}

#[test]
fn the_last_entry_of_a_label_counts() {
    let map = Network { nodes: vec![node("AAA", "BBB", "BBB"), node("AAA", "ZZZ", "ZZZ")] };
    assert_eq!(map.get("AAA"), Some(("ZZZ".to_string(), "ZZZ".to_string())));
    assert_eq!(map.get("BBB"), None);
    assert_eq!(map.find(&cs("AAA")), Some(1));
}

#[test]
fn day08_texts_that_are_not_read() {
    assert!(checked_parse("RLX\n\nAAA = (BBB, CCC)").is_none());
    assert!(checked_parse("RL").is_none());
    assert!(checked_parse("RL\n\nAAA = BBB, CCC").is_none());
    assert!(checked_parse("RL\n\nAAA = (BBB, CCC)\n\nrest").is_some());
    let (dirs, map) = checked_parse("\n\n").unwrap();
    assert!(dirs.is_empty());
    assert!(map.nodes.is_empty());
    assert_eq!(checked_part_two_way2(&dirs, &map), None);
}

#[test]
fn a_label_is_found_anywhere_in_its_line() {
    let (_, map) = checked_parse("L\n\n  xAAA = (BBB, CCC) and more").unwrap();
    assert_eq!(map.nodes, vec![node("AAA", "BBB", "CCC")]);
}

#[test]
fn parsing_and_solving_twice_give_the_same() {
    assert_eq!(checked_parse(TEST3), checked_parse(TEST3));
    let (dirs, map) = parse(TEST3);
    assert_eq!(checked_part_two_way2(&dirs, &map), checked_part_two_way2(&dirs, &map));
}

#[test]
fn the_answer_is_a_multiple_of_every_cycle_length() {
    let (dirs, map) = parse(TEST3);
    let all = part_two_way2(&dirs, &map);
    for start in ["11A", "22A"] {
        let cycle = find_cycle(&dirs, &map, &cs(start)).unwrap();
        assert_eq!(all % cycle, 0);
    }
}
