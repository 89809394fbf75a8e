use sail::sentences::{
    extract_words, sentences_column, sentences_inner, split_into_sentences, NotAStringColumn,
    TextColumn,
};
use sail::text::{chars_of, string_of};

fn run_sentences(values: &[Option<&str>]) -> Vec<Option<Vec<Vec<String>>>> {
    let values: Vec<Option<String>> = values.iter().map(|v| v.map(|s| s.to_string())).collect();
    sentences_inner(&values)
}

fn words(list: &[&str]) -> Vec<String> {
    list.iter().map(|s| s.to_string()).collect()
}

#[test]
fn test_basic_sentences() {
    let result = run_sentences(&[Some("Hi there! Good morning.")]);
    let outer = result[0].as_ref().unwrap();
    assert_eq!(outer.len(), 2);

    let words1 = &outer[0];
    assert_eq!(words1.len(), 2);
    assert_eq!(words1[0], "Hi");
    assert_eq!(words1[1], "there");

    let words2 = &outer[1];
    assert_eq!(words2.len(), 2);
    assert_eq!(words2[0], "Good");
    assert_eq!(words2[1], "morning");
}

#[test]
fn test_single_sentence() {
    let result = run_sentences(&[Some("Hello world")]);
    let outer = result[0].as_ref().unwrap();
    assert_eq!(outer.len(), 1);

    let words1 = &outer[0];
    assert_eq!(words1.len(), 2);
    assert_eq!(words1[0], "Hello");
    assert_eq!(words1[1], "world");
}

#[test]
fn test_null_input() {
    let result = run_sentences(&[None]);
    assert!(result[0].is_none());
}

#[test]
fn test_empty_string() {
    let result = run_sentences(&[Some("")]);
    let outer = result[0].as_ref().unwrap();
    assert_eq!(outer.len(), 0);
}

#[test]
fn test_question_and_exclamation() {
    let result = run_sentences(&[Some("What? Yes! OK.")]);
    let outer = result[0].as_ref().unwrap();
    assert_eq!(outer.len(), 3);

    let words: Vec<Vec<String>> = outer.clone();
    assert_eq!(words[0], vec!["What"]);
    assert_eq!(words[1], vec!["Yes"]);
    assert_eq!(words[2], vec!["OK"]);
}

#[test]
fn rows_keep_their_order_and_nulls() {
    let result = run_sentences(&[Some("a b."), None, Some("c")]);
    assert_eq!(result.len(), 3);
    assert_eq!(result[0], Some(vec![words(&["a", "b"])]));
    assert_eq!(result[1], None);
    assert_eq!(result[2], Some(vec![words(&["c"])]));
}

#[test]
fn extract_words_splits_on_non_alphanumeric() {
    assert_eq!(extract_words("foo, bar-baz  qux!"), words(&["foo", "bar", "baz", "qux"]));
    assert_eq!(extract_words("a1 2b"), words(&["a1", "2b"]));
    assert_eq!(extract_words("...,;"), Vec::<String>::new());
    assert_eq!(extract_words(""), Vec::<String>::new());
}

#[test]
fn extract_words_keeps_unicode_letters_and_digits() {
    assert_eq!(extract_words("café naïve ٣٤"), words(&["café", "naïve", "٣٤"]));
    assert_eq!(extract_words("日本語 テキスト"), words(&["日本語", "テキスト"]));
}

#[test]
fn sentences_without_words_are_dropped() {
    assert_eq!(split_into_sentences("... !? Hi."), vec![words(&["Hi"])]);
    assert_eq!(split_into_sentences("?!."), Vec::<Vec<String>>::new());
}

#[test]
fn terminator_inside_a_word_does_not_end_the_sentence() {
    // A terminator ends a sentence only when whitespace or the end of the text follows it.
    assert_eq!(split_into_sentences("3.14 is pi"), vec![words(&["3", "14", "is", "pi"])]);
    assert_eq!(split_into_sentences("a.b"), vec![words(&["a", "b"])]);
    assert_eq!(split_into_sentences("Really?! Yes."), vec![words(&["Really"]), words(&["Yes"])]);
    assert_eq!(split_into_sentences("Wait...\nnow"), vec![words(&["Wait"]), words(&["now"])]);
}

#[test]
fn unicode_whitespace_after_terminator_is_skipped() {
    assert_eq!(
        split_into_sentences("One.\u{3000}\u{00a0}Two!\tThree"),
        vec![words(&["One"]), words(&["Two"]), words(&["Three"])]
    );
}

#[test]
fn text_without_terminator_is_one_sentence() {
    assert_eq!(split_into_sentences("  just some words  "), vec![words(&["just", "some", "words"])]);
    assert_eq!(split_into_sentences("   "), Vec::<Vec<String>>::new());
}

#[test]
fn every_word_is_a_nonempty_alphanumeric_run() {
    for text in ["Hi there! Good morning.", "x--y. z", "  ¿Qué tal? Bien."] {
        for sentence in split_into_sentences(text) {
            assert!(!sentence.is_empty());
            for word in sentence {
                assert!(!word.is_empty());
                assert!(word.chars().all(|c| c.is_alphanumeric()));
            }
        }
    }
}

#[test]
fn chars_and_strings_round_trip() {
    let chars = chars_of("héllo wörld");
    assert_eq!(chars.len(), 11);
    assert_eq!(string_of(&chars, 0, 5), "héllo");
    assert_eq!(string_of(&chars, 6, 11), "wörld");
    assert_eq!(string_of(&chars, 3, 3), "");
}

#[test]
fn words_split_at_a_separator() {
    for (a, c, b) in [("foo bar", '-', "baz"), ("", ',', "x y"), ("α1", '\u{3000}', "β2"), ("ab", '.', "")] {
        let joined = format!("{a}{c}{b}");
        let mut expected = extract_words(a);
        expected.extend(extract_words(b));
        assert_eq!(extract_words(&joined), expected);
    }
}

#[test]
fn words_joined_with_spaces_come_back() {
    let ws = words(&["Hello", "wörld", "42", "日本"]);
    assert_eq!(extract_words(&ws.join(" ")), ws);
    assert_eq!(extract_words(""), Vec::<String>::new());
}

#[test]
fn flattened_sentences_are_the_words_of_the_text() {
    for text in ["Hi there! Good morning.", "What? Yes! OK.", "3.14 is pi. Really?!", "  ...  a.b c"] {
        let flat: Vec<String> = split_into_sentences(text).concat();
        assert_eq!(flat, extract_words(text));
    }
}

#[test]
fn joining_texts_after_a_terminator_joins_their_sentences() {
    for (s1, s2) in [("Hi there!", "Good morning."), ("One.", "  two three"), ("Why?", ""), ("A b.", "c.d e")] {
        let joined = format!("{s1} {s2}");
        let mut expected = split_into_sentences(s1);
        expected.extend(split_into_sentences(s2));
        assert_eq!(split_into_sentences(&joined), expected);
    }
}

#[test]
fn sentences_column_of_strings_is_sentences_inner() {
    let values = vec![Some("Hi. Yo".to_string()), None];
    assert_eq!(sentences_column(&TextColumn::Strings(values.clone())), Ok(sentences_inner(&values)));
}

#[test]
fn sentences_column_of_another_type() {
    assert_eq!(sentences_column(&TextColumn::Other(vec![true, true])), Ok(vec![None, None]));
    assert_eq!(sentences_column(&TextColumn::Other(vec![])), Ok(vec![]));
    assert_eq!(sentences_column(&TextColumn::Other(vec![true, false])), Err(NotAStringColumn));
}
