use oc::num::{push_decimal, read_decimal};
use oc::scan::{
    behind_last, contains, control, drop_end_char, drop_end_space, drop_start_space, find_first,
    find_last, space, split_fields, split_lines, split_words, starts_with, up_to_first,
};
use oc::size::human_size;
use oc::text::{
    byte_len, can_cut, char_count, chars_of, chain, head_to, push_padded, push_repeated,
    push_spaces, put, tail_from, text_eq, text_of,
};

fn letters_of_length(alphabet: &[char], n: usize) -> Vec<String> {
    let mut all = vec![String::new()];
    let mut layer = vec![String::new()];
    for _ in 0..n {
        let mut next = Vec::new();
        for s in &layer {
            for c in alphabet {
                let mut t = s.clone();
                t.push(*c);
                next.push(t);
            }
        }
        all.extend(next.iter().cloned());
        layer = next;
    }
    all
}

fn chars(s: &str) -> Vec<char> {
    s.chars().collect()
}

fn float_size(n: u64) -> String {
    let units = ["B", "K", "M", "G", "T"];
    let mut v = n as f64;
    let mut i = 0;
    while !(v < 1024.0 || i == units.len() - 1) {
        v /= 1024.0;
        i += 1;
    }
    if v < 10.0 && i > 0 {
        format!("{:.1}{}", v, units[i])
    } else {
        format!("{:.0}{}", v, units[i])
    }
}

#[test]
fn sizes_in_every_unit() {
    assert_eq!(human_size(0), "0B");
    assert_eq!(human_size(1023), "1023B");
    assert_eq!(human_size(1024), "1.0K");
    assert_eq!(human_size(1536), "1.5K");
    assert_eq!(human_size(10 * 1024), "10K");
    assert_eq!(human_size(1024 * 1024 - 1), "1024K");
    assert_eq!(human_size(5 << 20), "5.0M");
    assert_eq!(human_size(3 << 30), "3.0G");
    assert_eq!(human_size(2 << 40), "2.0T");
    assert_eq!(human_size(u64::MAX), "16777216T");
}

#[test]
fn sizes_round_half_to_even() {
    // 1.25K and 1.75K lie in the middle between two tenths
    assert_eq!(human_size(1280), "1.2K");
    assert_eq!(human_size(1792), "1.8K");
    assert_eq!(human_size(10 * 1024 + 512), "10K");
    assert_eq!(human_size(11 * 1024 + 512), "12K");
}

#[test]
fn sizes_agree_with_floating_point() {
    let mut n: u64 = 1;
    let mut state: u64 = 88172645463325252;
    for _ in 0..200_000 {
        state ^= state << 13;
        state ^= state >> 7;
        state ^= state << 17;
        n = state >> (n % 64);
        assert_eq!(human_size(n), float_size(n), "{}", n);
    }
    for n in 0..300_000u64 {
        assert_eq!(human_size(n), float_size(n), "{}", n);
    }
    for shift in 0..64u32 {
        for d in 0..5u64 {
            let n = (1u64 << shift).wrapping_add(d).wrapping_sub(2);
            assert_eq!(human_size(n), float_size(n), "{}", n);
        }
    }
}

#[test]
fn sizes_fit_into_five_columns() {
    assert_eq!(human_size(9999 << 40).len(), 5);
    assert!(human_size(10_000 << 40).len() > 5);
}

#[test]
fn decimals_are_written_and_read_back() {
    for n in [0, 7, 10, 99, 100, 65535, u64::MAX] {
        let mut s = String::new();
        push_decimal(&mut s, n);
        assert_eq!(s, format!("{}", n));
        assert_eq!(read_decimal(&chars(&s), u64::MAX), Some(n));
    }
}

#[test]
fn decimals_are_read_like_std() {
    let inputs = [
        "", "+", "-", "-1", "+1", "1", "007", "255", "256", "+255", "1 ", " 1", "1a", "٣", "++1",
        "99999999999999999999",
    ];
    for s in inputs {
        assert_eq!(read_decimal(&chars(s), 255), s.parse::<u8>().ok().map(|n| n as u64), "{}", s);
        assert_eq!(read_decimal(&chars(s), 65535), s.parse::<u16>().ok().map(|n| n as u64));
        assert_eq!(read_decimal(&chars(s), u64::MAX), s.parse::<u64>().ok());
    }
}

#[test]
fn character_classes_agree_with_std() {
    for c in '\0'..=char::MAX {
        assert_eq!(space(c, true), c.is_whitespace());
        assert_eq!(space(c, false), c.is_ascii_whitespace());
        assert_eq!(control(c), c.is_control());
    }
}

#[test]
fn lower_case_of_ascii_text() {
    for c in '\0'..='\x7f' {
        let s = c.to_string();
        assert_eq!(s.to_lowercase(), s.to_ascii_lowercase());
        let t = format!("A{}z", c);
        assert_eq!(t.to_lowercase(), t.to_ascii_lowercase());
    }
}

#[test]
fn words_agree_with_std() {
    for s in letters_of_length(&['a', ' ', '\u{b}', '\u{3000}', 'é'], 6) {
        let w: Vec<&str> = s.split_whitespace().collect();
        assert_eq!(split_words(&s, true), w);
        let w: Vec<&str> = s.split_ascii_whitespace().collect();
        assert_eq!(split_words(&s, false), w);
    }
}

#[test]
fn joined_words_split_into_the_same_words() {
    let s = ["drwx", "2", "a"].join(" ");
    assert_eq!(split_words(&s, false), vec!["drwx", "2", "a"]);
}

#[test]
fn lines_agree_with_std() {
    for s in letters_of_length(&['a', '\n', '\r', '"'], 7) {
        let l: Vec<&str> = s.lines().collect();
        assert_eq!(split_lines(&s), l, "{:?}", s);
    }
}

#[test]
fn fields_trims_and_searches_agree_with_std() {
    for s in letters_of_length(&['a', ':', ' ', 'b'], 6) {
        let v = chars(&s);
        let f: Vec<String> = split_fields(&v, ':').iter().map(|p| p.iter().collect()).collect();
        let g: Vec<&str> = s.split(':').collect();
        assert_eq!(f, g);
        assert_eq!(text_of(drop_end_space(&v)), s.trim_end());
        assert_eq!(text_of(drop_start_space(&v)), s.trim_start());
        assert_eq!(text_of(drop_end_char(&v, ':')), s.trim_end_matches(':'));
        assert_eq!(find_first(&v, ':'), s.find(':'));
        assert_eq!(find_last(&v, ':'), s.rfind(':'));
        assert_eq!(behind_last(&s, ':'), s.rsplit(':').next().unwrap());
        assert_eq!(up_to_first(&s, ':'), s.split(':').next().unwrap());
        for q in ["", "a", "ab", ":a", "abc"] {
            assert_eq!(contains(&s, q), s.contains(q));
            assert_eq!(starts_with(&s, q), s.starts_with(q));
        }
    }
}

#[test]
fn cutting_is_by_bytes() {
    let s = "aé…b";
    assert_eq!(byte_len(s), 7);
    assert_eq!(char_count(s), 4);
    for at in 0..10 {
        assert_eq!(can_cut(s, at), s.is_char_boundary(at));
        if can_cut(s, at) {
            assert_eq!(head_to(s, at), &s[..at]);
            assert_eq!(tail_from(s, at), &s[at..]);
            assert_eq!(chain(head_to(s, at), tail_from(s, at)), s);
        }
    }
}

#[test]
fn texts_are_compared_and_built() {
    assert!(text_eq("", ""));
    assert!(text_eq("aé", "aé"));
    assert!(!text_eq("a", "b"));
    assert!(!text_eq("a", "aa"));
    assert_eq!(chars_of("aé"), vec!['a', 'é']);
    assert_eq!(text_of(&['a', 'é']), "aé");
    let mut o = String::new();
    put(&mut o, '╔');
    push_repeated(&mut o, '═', 3);
    push_spaces(&mut o, 2);
    push_padded(&mut o, "ab", 4);
    push_padded(&mut o, "abc", 2);
    assert_eq!(o, "╔═══  ab  abc");
}
