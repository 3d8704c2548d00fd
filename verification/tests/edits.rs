use text_rope::{Rope, RopeError};

const TEXT: &str = "the quick brown fox";

fn deep() -> Rope {
    let a = Rope::concat(Rope::new("the "), Rope::new("qu"));
    let b = Rope::concat(Rope::new("ick"), Rope::concat(Rope::new(""), Rope::new(" bro")));
    let c = Rope::concat(Rope::new("wn f"), Rope::new("ox"));
    Rope::concat(Rope::concat(a, b), c)
}

#[test]
fn new_then_to_string_gives_the_text_back() {
    for text in ["", "a", "hello", "two words", "line\nbreak", "héllo wörld", "日本語"] {
        assert_eq!(Rope::new(text).to_string(), text);
    }
}

#[test]
fn concat_of_two_leaves_is_the_first_then_the_second() {
    for (a, b) in [("", ""), ("a", ""), ("", "b"), ("foo", "bar"), ("héllo", "wörld")] {
        let rope = Rope::concat(Rope::new(a), Rope::new(b));
        assert_eq!(rope.to_string(), format!("{}{}", a, b));
        assert_eq!(rope.total_length(), a.chars().count() + b.chars().count());
    }
}

#[test]
fn deep_rope_reads_in_order() {
    assert_eq!(deep().to_string(), TEXT);
    assert_eq!(deep().total_length(), 19);
}

#[test]
fn split_then_concat_loses_no_text_at_any_position() {
    let rope = deep();
    for i in 0..=19 {
        let (left, right) = rope.split_at_index(i).unwrap();
        assert_eq!(left.total_length(), i);
        assert_eq!(right.total_length(), 19 - i);
        assert_eq!(left.to_string(), &TEXT[..i]);
        assert_eq!(right.to_string(), &TEXT[i..]);
        assert_eq!(Rope::concat(left, right).to_string(), TEXT);
    }
}

#[test]
fn char_at_agrees_with_to_string_at_every_position() {
    let rope = deep();
    let text: Vec<char> = rope.to_string().chars().collect();
    assert_eq!(text.len(), 19);
    for i in 0..19 {
        assert_eq!(rope.char_at_index(i), Ok(text[i]));
        assert_eq!(rope.find_at_index(rope.root(), i), Ok(text[i]));
    }
    assert_eq!(rope.char_at_index(19), Err(RopeError::IndexOutOfRange));
}

#[test]
fn insert_splices_the_text_in_at_every_position() {
    let rope = deep();
    for i in 0..=19 {
        let longer = rope.insert_at_index(i, "[+]").unwrap();
        assert_eq!(longer.to_string(), format!("{}[+]{}", &TEXT[..i], &TEXT[i..]));
        assert_eq!(longer.total_length(), 22);
    }
}

#[test]
fn delete_removes_exactly_the_range_for_every_range() {
    let rope = deep();
    for start in 0..=19 {
        for end in start..=19 {
            let shorter = rope.delete_between_index(start, end).unwrap();
            assert_eq!(shorter.to_string(), format!("{}{}", &TEXT[..start], &TEXT[end..]));
            assert_eq!(shorter.total_length(), 19 - (end - start));
        }
    }
}

#[test]
fn edits_can_be_chained() {
    let rope = deep();
    let rope = rope.insert_at_index(4, "very ").unwrap();
    assert_eq!(rope.to_string(), "the very quick brown fox");
    let rope = rope.delete_between_index(9, 15).unwrap();
    assert_eq!(rope.to_string(), "the very brown fox");
    let (left, right) = rope.split_at_index(8).unwrap();
    assert_eq!(left.to_string(), "the very");
    assert_eq!(right.to_string(), " brown fox");
    assert_eq!(right.char_at_index(1), Ok('b'));
    let rope = Rope::concat(right, left);
    assert_eq!(rope.to_string(), " brown foxthe very");
    assert_eq!(rope.char_at_index(10), Ok('t'));
}

#[test]
fn clone_is_a_copy_of_its_own() {
    let rope = deep();
    let copy = rope.clone();
    let edited = copy.insert_at_index(0, "> ").unwrap();
    assert_eq!(rope.to_string(), TEXT);
    assert_eq!(copy.to_string(), TEXT);
    assert_eq!(edited.to_string(), "> the quick brown fox");
}
