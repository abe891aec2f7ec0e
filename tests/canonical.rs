use cos_upload::canonicalize;

fn pairs(items: &[(&str, &str)]) -> Vec<(String, String)> {
    items.iter().map(|(k, v)| (k.to_string(), v.to_string())).collect()
}

#[test]
fn empty_map_gives_empty_strings() {
    assert_eq!(canonicalize(&Vec::new()), Some((String::new(), String::new())));
}

#[test]
fn names_are_lowercased_sorted_and_encoded() {
    let entries = pairs(&[("X-Cos-Meta-Name", "a b/c"), ("Host", "b.example.com"), ("content-length", "12")]);
    let (names, pairs) = canonicalize(&entries).unwrap();
    assert_eq!(names, "content-length;host;x-cos-meta-name");
    assert_eq!(pairs, "content-length=12&host=b.example.com&x-cos-meta-name=a%20b%2Fc");
}

#[test]
fn output_does_not_depend_on_insertion_order() {
    let a = pairs(&[("b", "2"), ("a", "1"), ("C", "3"), ("uploads", "")]);
    let b = pairs(&[("uploads", ""), ("C", "3"), ("a", "1"), ("b", "2")]);
    let c = pairs(&[("a", "1"), ("uploads", ""), ("b", "2"), ("C", "3")]);
    let ra = canonicalize(&a).unwrap();
    assert_eq!(ra, canonicalize(&b).unwrap());
    assert_eq!(ra, canonicalize(&c).unwrap());
    assert_eq!(ra.0, "a;b;c;uploads");
    assert_eq!(ra.1, "a=1&b=2&c=3&uploads=");
}

#[test]
fn order_is_by_bytes_of_lowercased_name() {
    let entries = pairs(&[("ab", "x"), ("a", "y"), ("B", "z"), ("a-b", "w")]);
    let (names, _) = canonicalize(&entries).unwrap();
    assert_eq!(names, "a;a-b;ab;b");
}

#[test]
fn percent_encoding_keeps_only_unreserved_bytes() {
    let entries = pairs(&[("k", "AZaz09-._~ !*'()+=&é")]);
    let (_, pairs) = canonicalize(&entries).unwrap();
    assert_eq!(pairs, "k=AZaz09-._~%20%21%2A%27%28%29%2B%3D%26%C3%A9");
}

#[test]
fn names_colliding_after_lowercasing_are_rejected() {
    assert_eq!(canonicalize(&pairs(&[("Host", "a"), ("HOST", "b")])), None);
    assert_eq!(canonicalize(&pairs(&[("x", "1"), ("x", "1")])), None);
}
