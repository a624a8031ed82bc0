use certified_assets::asset::header_block_string;
use certified_assets::bytes::{bytes_eq, rank, Rank};
use certified_assets::chunks::{join_chunks, split_chunks};
use certified_assets::headers::{contains, find_header, names_match, read_list};
use certified_assets::path::{
    decode_url_path, find_byte, html_alias_of, index_alias_of, normalize_key,
};
use certified_assets::asset::{in_normal_form, normalize_headers};
use certified_assets::text::{
    decimal_string, ends_with, is_lower, matches_at, replace, split, str_eq, to_lower,
};

fn list(value: &str) -> Vec<String> {
    read_list(value.as_bytes()).into_iter().map(|n| String::from_utf8(n).unwrap()).collect()
}

#[test]
fn byte_strings_are_ranked_lexicographically() {
    assert_eq!(rank(b"", b""), Rank::Same);
    assert_eq!(rank(b"", b"a"), Rank::Before);
    assert_eq!(rank(b"a", b""), Rank::After);
    assert_eq!(rank(b"a", b"a"), Rank::Same);
    assert_eq!(rank(b"a", b"b"), Rank::Before);
    assert_eq!(rank(b"b", b"a"), Rank::After);
    assert_eq!(rank(b"a", b"ab"), Rank::Before);
    assert_eq!(rank(b"ab", b"a"), Rank::After);
    assert_eq!(rank(b"ab", b"b"), Rank::Before);
    assert_eq!(rank(&[0xff], &[0x00, 0xff]), Rank::After);
    for (a, b) in [("x", "y"), ("abc", "abd"), ("", "z"), ("same", "same"), ("ab", "a")] {
        let expected = match a.as_bytes().cmp(b.as_bytes()) {
            std::cmp::Ordering::Less => Rank::Before,
            std::cmp::Ordering::Equal => Rank::Same,
            std::cmp::Ordering::Greater => Rank::After,
        };
        assert_eq!(rank(a.as_bytes(), b.as_bytes()), expected);
    }
}

#[test]
fn byte_strings_are_compared() {
    assert!(bytes_eq(b"", b""));
    assert!(bytes_eq(b"abc", b"abc"));
    assert!(!bytes_eq(b"abc", b"abd"));
    assert!(!bytes_eq(b"abc", b"ab"));
}

#[test]
fn texts_are_compared() {
    assert!(str_eq("", ""));
    assert!(str_eq("identity", "identity"));
    assert!(str_eq("grüße", "grüße"));
    assert!(!str_eq("identity", "Identity"));
    assert!(!str_eq("a", "ab"));
}

#[test]
fn numbers_are_written_in_decimal() {
    assert_eq!(decimal_string(0), "0");
    assert_eq!(decimal_string(7), "7");
    assert_eq!(decimal_string(10), "10");
    assert_eq!(decimal_string(604800), "604800");
    assert_eq!(decimal_string(1234567890), "1234567890");
    assert_eq!(decimal_string(u64::MAX), "18446744073709551615");
}

#[test]
fn header_block_frames_names_and_values() {
    assert_eq!(header_block_string(&vec![]), "");
    assert_eq!(
        header_block_string(&vec![("content-type".to_string(), "text/html".to_string())]),
        "12:content-type,9:text/html,"
    );
    assert_eq!(
        header_block_string(&vec![
            ("a".to_string(), "".to_string()),
            ("ü".to_string(), "0123456789".to_string())
        ]),
        "1:a,0:,2:ü,10:0123456789,"
    );
}

#[test]
fn texts_are_split_and_searched() {
    let pieces = |s: &str| split(s, '/');
    assert_eq!(pieces("a/b"), vec!["a", "b"]);
    assert_eq!(pieces("/a//b/"), vec!["", "a", "", "b", ""]);
    assert_eq!(pieces(""), vec![""]);
    assert_eq!(pieces("ä/ö"), vec!["ä", "ö"]);
    assert!(matches_at("hello", "ll", 2));
    assert!(matches_at("hello", "", 5));
    assert!(!matches_at("hello", "", 6));
    assert!(!matches_at("hello", "lo", 4));
    assert!(!matches_at("hello", "ll", 1));
    assert!(ends_with("hello", "llo"));
    assert!(ends_with("hello", ""));
    assert!(!ends_with("llo", "hello"));
    assert!(ends_with("grüße", "üße"));
}

#[test]
fn replace_goes_on_behind_each_occurrence() {
    for (s, pattern, with) in [
        ("aaaa", "aa", "b"),
        ("aaa", "aa", "b"),
        ("abcabc", "bc", ""),
        ("abc", "abcd", "x"),
        ("abc", "", "x"),
        ("", "a", "x"),
        ("übergrößen", "ö", "oe"),
        ("a.b.c", ".", ".."),
        ("xyz", "xyz", "xyz"),
    ] {
        if pattern.is_empty() {
            assert_eq!(replace(s, pattern, with), s);
        } else {
            assert_eq!(replace(s, pattern, with), s.replace(pattern, with));
        }
    }
    assert_eq!(replace("aaaa", "aa", "b"), "bb");
    assert_eq!(replace("aaa", "aa", "b"), "ba");
}

#[test]
fn ascii_letters_are_put_in_lower_case() {
    assert_eq!(to_lower(""), "");
    assert_eq!(to_lower("Content-Type"), "content-type");
    assert_eq!(to_lower("ABCDEFGHIJKLMNOPQRSTUVWXYZ"), "abcdefghijklmnopqrstuvwxyz");
    assert_eq!(to_lower("@[`{ az AZ 09"), "@[`{ az az 09");
    assert_eq!(to_lower("ÄÖ-Ü-x-Y"), "ÄÖ-Ü-x-y");
    assert_eq!(to_lower("already lower"), "already lower");
    assert!(is_lower(""));
    assert!(is_lower("content-type"));
    assert!(is_lower("ÄÖÜ @[`{"));
    assert!(!is_lower("Content-type"));
    assert!(!is_lower("content-typE"));
    assert!(!is_lower("aZ"));
    assert!(!is_lower("A"));
}

#[test]
fn header_fields_are_brought_into_normal_form() {
    let fields = |list: &[(&str, &str)]| -> Vec<(String, String)> {
        list.iter().map(|(n, v)| (n.to_string(), v.to_string())).collect()
    };
    assert_eq!(normalize_headers(&fields(&[])), fields(&[]));
    assert_eq!(
        normalize_headers(&fields(&[("B", "2"), ("a", "1"), ("C", "3"), ("b", "4")])),
        fields(&[("a", "1"), ("b", "4"), ("c", "3")])
    );
    assert_eq!(
        normalize_headers(&fields(&[("x-b", "1"), ("x", "2"), ("x-a", "3"), ("X", "4")])),
        fields(&[("x", "4"), ("x-a", "3"), ("x-b", "1")])
    );
    assert!(in_normal_form(&fields(&[])));
    assert!(in_normal_form(&fields(&[("a", "1"), ("b", "4"), ("c", "3")])));
    assert!(!in_normal_form(&fields(&[("a", "1"), ("c", "4"), ("b", "3")])));
    assert!(!in_normal_form(&fields(&[("a", "1"), ("a", "4")])));
    assert!(!in_normal_form(&fields(&[("a", "1"), ("B", "4")])));
    assert!(!in_normal_form(&fields(&[("A", "1")])));
    assert!(in_normal_form(&fields(&[("ä", "1")])));
}

#[test]
fn keys_are_normalized() {
    assert_eq!(normalize_key("/a/b"), "/a/b");
    assert_eq!(normalize_key("/a/b?x=1&y=2"), "/a/b");
    assert_eq!(normalize_key("/a?b?c"), "/a");
    assert_eq!(normalize_key("?x"), "/");
    assert_eq!(normalize_key(""), "/");
    assert_eq!(normalize_key("/"), "/");
    assert_eq!(normalize_key("a/b"), "/a/b");
    assert_eq!(normalize_key("a?b"), "/a");
    assert_eq!(normalize_key("//a"), "//a");
    assert_eq!(normalize_key("ü?"), "/ü");
    assert_eq!(normalize_key("/grüße?ö"), "/grüße");
    assert_eq!(find_byte(b"abc", b'c'), 2);
    assert_eq!(find_byte(b"abc", b'x'), 3);
    assert_eq!(find_byte(b"", b'x'), 0);
    assert_eq!(find_byte(b"xx", b'x'), 0);
}

#[test]
fn url_paths_are_decoded() {
    let decode = |url: &str| decode_url_path(url.as_bytes());
    assert_eq!(decode("/a/b"), Some(b"/a/b".to_vec()));
    assert_eq!(decode(""), Some(vec![]));
    assert_eq!(decode("/a%20b"), Some(b"/a b".to_vec()));
    assert_eq!(decode("/%41%5a%61%7A"), Some(b"/AZaz".to_vec()));
    assert_eq!(decode("/%00%ff%Ff%fF"), Some(vec![b'/', 0, 255, 255, 255]));
    assert_eq!(decode("/a?b=%zz"), Some(b"/a".to_vec()));
    assert_eq!(decode("/a#%"), Some(b"/a".to_vec()));
    assert_eq!(decode("/a%3Fb"), Some(b"/a?b".to_vec()));
    assert_eq!(decode("/a%23b?c"), Some(b"/a#b".to_vec()));
    assert_eq!(decode("%"), None);
    assert_eq!(decode("/%4"), None);
    assert_eq!(decode("/%4?"), None);
    assert_eq!(decode("/%g0"), None);
    assert_eq!(decode("/%0g"), None);
    assert_eq!(decode("/%/0"), None);
    assert_eq!(decode("/%:0"), None);
    assert_eq!(decode("/%@0"), None);
    assert_eq!(decode("/%G0"), None);
    assert_eq!(decode("/%`0"), None);
}

#[test]
fn aliases_of_a_path() {
    assert_eq!(index_alias_of(b"/"), b"/index.html".to_vec());
    assert_eq!(index_alias_of(b""), b"/index.html".to_vec());
    assert_eq!(index_alias_of(b"/docs"), b"/docs/index.html".to_vec());
    assert_eq!(index_alias_of(b"/docs/"), b"/docs/index.html".to_vec());
    assert_eq!(index_alias_of(b"/docs//"), b"/docs//index.html".to_vec());
    assert_eq!(html_alias_of(b"/about"), b"/about.html".to_vec());
    assert_eq!(html_alias_of(b"/"), b"/.html".to_vec());
}

#[test]
fn header_names_match_whatever_their_case() {
    assert!(names_match(b"Accept-Encoding", b"accept-encoding"));
    assert!(names_match(b"HOST", b"host"));
    assert!(names_match(b"", b""));
    assert!(!names_match(b"host", b"hosts"));
    assert!(!names_match(b"h_st", b"host"));
    assert!(!names_match(b"@", b"`"));
    assert!(!names_match(b"[", b"{"));
    let headers = vec![
        ("Content-Type".to_string(), "a".to_string()),
        ("HOST".to_string(), "first".to_string()),
        ("host".to_string(), "second".to_string()),
    ];
    assert_eq!(find_header(&headers, b"host"), Some(1));
    assert_eq!(find_header(&headers, b"content-type"), Some(0));
    assert_eq!(find_header(&headers, b"accept"), None);
    assert_eq!(find_header(&vec![], b"host"), None);
}

#[test]
fn lists_of_encodings_are_read() {
    assert_eq!(list("gzip"), vec!["gzip"]);
    assert_eq!(list("gzip, br"), vec!["gzip", "br"]);
    assert_eq!(list(" gzip ;q=1.0,\tbr;q=0.5 , identity"), vec!["gzip", "br", "identity"]);
    assert_eq!(list(""), vec![""]);
    assert_eq!(list(","), vec!["", ""]);
    assert_eq!(list("a,,b"), vec!["a", "", "b"]);
    assert_eq!(list("*;q=0"), vec!["*"]);
    assert_eq!(list("  "), vec![""]);
}

#[test]
fn markers_are_found_in_texts() {
    assert!(contains(b"abc.raw.icp0.io", b".raw."));
    assert!(contains(b".raw.", b".raw."));
    assert!(contains(b"x.raw.", b".raw."));
    assert!(!contains(b"abc.raw", b".raw."));
    assert!(!contains(b"raw.icp0.io", b".raw."));
    assert!(!contains(b"", b".raw."));
    assert!(contains(b"", b""));
    assert!(contains(b"abc", b""));
}

#[test]
fn content_is_cut_and_joined() {
    let chunks = |content: &[u8], budget: usize| split_chunks(content, budget);
    assert_eq!(chunks(b"", 3), vec![Vec::<u8>::new()]);
    assert_eq!(chunks(b"ab", 3), vec![b"ab".to_vec()]);
    assert_eq!(chunks(b"abc", 3), vec![b"abc".to_vec()]);
    assert_eq!(chunks(b"abcd", 3), vec![b"abc".to_vec(), b"d".to_vec()]);
    assert_eq!(chunks(b"abcdef", 3), vec![b"abc".to_vec(), b"def".to_vec()]);
    assert_eq!(chunks(b"abcdefg", 3), vec![b"abc".to_vec(), b"def".to_vec(), b"g".to_vec()]);
    assert_eq!(chunks(b"abc", usize::MAX), vec![b"abc".to_vec()]);
    for n in 0..20usize {
        let content: Vec<u8> = (0..n as u8).collect();
        for budget in 1..8usize {
            let cut = split_chunks(&content, budget);
            assert_eq!(join_chunks(&cut), content);
            assert_eq!(cut.len(), if n == 0 { 1 } else { (n + budget - 1) / budget });
            assert!(cut.iter().all(|c| c.len() <= budget));
        }
    }
    assert_eq!(join_chunks(&vec![]), Vec::<u8>::new());
}
