use wg_p2p::text::{chars_of, chars_of_bytes, split_at, string_of, strings_of, trim, trim_range};

fn chars(s: &str) -> Vec<char> {
    s.chars().collect()
}

#[test]
fn trim_removes_white_space_at_both_ends() {
    assert_eq!(trim(&chars("  a b \t\r\n")), chars("a b"));
    assert_eq!(trim(&chars("a")), chars("a"));
    assert_eq!(trim(&chars("")), chars(""));
    assert_eq!(trim(&chars(" \t ")), chars(""));
    assert_eq!(trim(&chars("\u{a0}\u{2003}x\u{3000}\u{85}")), chars("x"));
    assert_eq!(trim(&chars("\u{200b}x")), chars("\u{200b}x"));
}

#[test]
fn split_gives_one_piece_more_than_separators() {
    let pieces = |s: &str| strings_of(&split_at(&chars(s), ','));
    assert_eq!(pieces(""), vec![""]);
    assert_eq!(pieces("a"), vec!["a"]);
    assert_eq!(pieces("a,b"), vec!["a", "b"]);
    assert_eq!(pieces(",a,,b,"), vec!["", "a", "", "b", ""]);
    assert_eq!(pieces(","), vec!["", ""]);
    assert_eq!(pieces("a b"), vec!["a b"]);
}

#[test]
fn split_agrees_with_the_standard_library() {
    for s in ["", " ", "a b", " a  b ", "a/b/c", "///", "1.2.3.4/32"] {
        for sep in [' ', '/'] {
            let want: Vec<String> = s.split(sep).map(|p| p.to_string()).collect();
            assert_eq!(strings_of(&split_at(&chars(s), sep)), want);
        }
    }
}

#[test]
fn trim_agrees_with_the_standard_library() {
    for s in ["", " ", " a", "a ", "\t a b \n", "\u{1680}a\u{2028}", "\u{feff}a"] {
        assert_eq!(string_of(&trim(&chars(s))), s.trim());
    }
}

#[test]
fn strings_and_characters_convert_both_ways() {
    for s in ["", "a", "héllo wörld", "\u{10348}\u{0}z"] {
        assert_eq!(chars_of(s), chars(s));
        assert_eq!(string_of(&chars(s)), s);
    }
    assert_eq!(strings_of(&vec![chars("ab"), chars(""), chars("c")]), vec!["ab", "", "c"]);
}

#[test]
fn bytes_are_read_as_the_characters_with_their_codes() {
    assert_eq!(chars_of_bytes(&vec![0x41, 0x20, 0xe9, 0xff, 0x00]), vec!['A', ' ', 'é', 'ÿ', '\0']);
    assert_eq!(chars_of_bytes(&vec![]), Vec::<char>::new());
}

#[test]
fn trim_range_bounds_the_inner_stretch() {
    assert_eq!(trim_range(&vec![]), (0, 0));
    assert_eq!(trim_range(&vec![false]), (0, 1));
    assert_eq!(trim_range(&vec![true]), (1, 1));
    assert_eq!(trim_range(&vec![true, true, true]), (3, 3));
    assert_eq!(trim_range(&vec![true, false, true, false, true, true]), (1, 4));
    assert_eq!(trim_range(&vec![false, true, true]), (0, 1));
    assert_eq!(trim_range(&vec![true, true, false]), (2, 3));
}
