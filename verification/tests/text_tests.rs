use p2p_ft::order::{insert_name, name_less, sort_names};
use p2p_ft::text::{decimal_string, host_port, http_url, https_url, last_component_of, last_two_components_of};

#[test]
fn decimal_numerals() {
    assert_eq!(decimal_string(0), "0");
    assert_eq!(decimal_string(7), "7");
    assert_eq!(decimal_string(20000), "20000");
    assert_eq!(decimal_string(u32::MAX), u32::MAX.to_string());
}

#[test]
fn path_components() {
    assert_eq!(last_two_components_of("/home/u/sp1/peer3"), "sp1/peer3");
    assert_eq!(last_two_components_of("/a/b"), "a/b");
    assert_eq!(last_two_components_of("a/b"), "a/b");
    assert_eq!(last_two_components_of("abc"), "abc");
    assert_eq!(last_two_components_of("/"), "/");
    assert_eq!(last_two_components_of("a//"), "/");
    assert_eq!(last_component_of("/home/u/sp1"), "sp1");
    assert_eq!(last_component_of("sp1"), "sp1");
    assert_eq!(last_component_of("/x/"), "");
}

#[test]
fn path_components_agree_with_split() {
    for p in ["/home/u/sp1/peer3", "/a/b", "a/b", "abc", "/", "a//", "", "//x"] {
        let parts: Vec<&str> = p.split('/').collect();
        let two = parts.iter().rev().take(2).rev().cloned().collect::<Vec<&str>>().join("/");
        assert_eq!(last_two_components_of(p), two);
        assert_eq!(last_component_of(p), *parts.last().unwrap());
    }
}

#[test]
fn addresses() {
    assert_eq!(host_port("10.0.0.1", "80"), "10.0.0.1:80");
    assert_eq!(http_url("h:1"), "http://h:1");
    assert_eq!(https_url("h:1"), "https://h:1");
}

#[test]
fn name_order_is_str_order() {
    let names = ["", "a", "B", "ab", "b", "é", "z", "aa"];
    for x in names {
        for y in names {
            assert_eq!(name_less(x, y), x < y);
        }
    }
}

#[test]
fn sorting_and_unique_insertion() {
    let v: Vec<String> = ["b", "a", "c", "a"].iter().map(|s| s.to_string()).collect();
    assert_eq!(sort_names(v), vec!["a", "a", "b", "c"]);
    let mut u: Vec<String> = Vec::new();
    for s in ["b", "a", "c", "a", "b"] {
        insert_name(&mut u, s.to_string());
    }
    assert_eq!(u, vec!["a", "b", "c"]);
}
