use pos_features::corpus::{is_blank, is_space_char};
use pos_features::{CorpusError, LineError, POSDefinition, Sample, TokenFault};
use rayon::iter::{IntoParallelRefIterator, ParallelIterator};

fn vocabulary(labels: &[&str]) -> POSDefinition {
    POSDefinition::new(labels.iter().map(|l| l.to_string()).collect())
}

fn lines(text: &[&str]) -> Vec<String> {
    text.iter().map(|l| l.to_string()).collect()
}

#[test]
fn line_becomes_keys_and_labels() {
    let definition = vocabulary(&["r", "v", "y"]);
    let (keys, labels) = definition.parse_gold_line("他/r 来/v 了/y").unwrap();
    assert_eq!(labels, vec![0, 1, 2]);
    assert_eq!(keys, definition.parse_words_features(&["他", "来", "了"]));
    assert_eq!(keys[0][0], "2他");
    assert_eq!(keys[1][11], "b他来了");
}

#[test]
fn tag_follows_the_last_slash() {
    let definition = vocabulary(&["m", "url"]);
    let (keys, labels) = definition.parse_gold_line("1/2/m http://a/b/url").unwrap();
    assert_eq!(labels, vec![0, 1]);
    assert_eq!(keys, definition.parse_words_features(&["1/2", "http://a/b"]));
}

#[test]
fn any_white_space_separates_tokens() {
    let definition = vocabulary(&["r", "v", "y"]);
    let expected = definition.parse_gold_line("他/r 来/v 了/y").unwrap();
    for line in [
        "  他/r   来/v\t了/y  ",
        "\t他/r\u{3000}来/v\u{a0}了/y\r",
        "他/r\u{2003}来/v\u{2028}了/y\u{85}",
        "\u{1680}他/r\u{b}\u{c}来/v\u{205f}\u{202f}了/y",
    ] {
        assert_eq!(definition.parse_gold_line(line).unwrap(), expected);
    }
}

#[test]
fn tokens_are_those_of_the_standard_library() {
    let definition = vocabulary(&["x"]);
    let mut point = 0u32;
    while point <= 0x10ffff {
        if let Some(c) = char::from_u32(point) {
            assert_eq!(is_space_char(c), c.is_whitespace());
            if point < 0x3100 && c != '/' {
                let line = format!("a/x{}b/x", c);
                let tokens = line.split_whitespace().count();
                let (_, labels) = definition.parse_gold_line(&line).unwrap();
                assert_eq!(labels.len(), tokens);
            }
        }
        point += 1;
    }
}

#[test]
fn line_of_white_space_is_an_empty_sample() {
    let definition = vocabulary(&["r"]);
    let empty: Sample = (Vec::new(), Vec::new());
    assert_eq!(definition.parse_gold_line("   \t "), Ok(empty.clone()));
    assert_eq!(definition.parse_gold_line(""), Ok(empty));
    assert_eq!(definition.parse_gold_features(&lines(&[" ", "", "\t"])), Ok(Vec::new()));
}

#[test]
fn line_without_token_is_blank() {
    for line in ["", " ", "   ", "\t", "\r", " \t\u{3000}\u{a0} ", "\u{2028}\u{85}"] {
        assert!(is_blank(line));
    }
    for line in ["a", " a ", "\t/\t", "他/r", "\u{200b}", "   x/a", "\u{feff}"] {
        assert!(!is_blank(line));
    }
}

#[test]
fn lines_of_white_space_give_no_sample() {
    let definition = vocabulary(&["a", "b"]);
    let samples = definition.parse_gold_features(&lines(&["x/a", "   ", "y/b"])).unwrap();
    assert_eq!(samples.len(), 2);
    assert_eq!(samples[0].1, vec![0]);
    assert_eq!(samples[1].1, vec![1]);
    assert_eq!(samples[0], definition.parse_gold_line("x/a").unwrap());
    assert_eq!(samples[1], definition.parse_gold_line("y/b").unwrap());
}

#[test]
fn every_sample_holds_a_token() {
    let definition = vocabulary(&["r", "v", "y"]);
    let text = lines(&["", " ", "他/r 来/v", "\t\t", "\r", "了/y", "\u{3000}", "来/v 了/y 他/r", "  "]);
    let samples = definition.parse_gold_features(&text).unwrap();
    assert_eq!(samples.len(), 3);
    let kept: Vec<&String> = text.iter().filter(|l| !is_blank(l)).collect();
    assert_eq!(kept.len(), 3);
    for (k, (keys, labels)) in samples.iter().enumerate() {
        let words = kept[k].split_whitespace().count();
        assert!(words >= 1);
        assert_eq!(keys.len(), words);
        assert_eq!(labels.len(), words);
        assert!(labels.iter().all(|&l| l < definition.label_num()));
        assert_eq!(&samples[k], &definition.parse_gold_line(kept[k]).unwrap());
    }
}

#[test]
fn token_without_slash_is_a_fault() {
    let definition = vocabulary(&["r", "v"]);
    assert_eq!(
        definition.parse_gold_line("他/r 来 了/v"),
        Err(LineError { token: 1, fault: TokenFault::MissingTag })
    );
    assert_eq!(
        definition.parse_gold_line("他"),
        Err(LineError { token: 0, fault: TokenFault::MissingTag })
    );
}

#[test]
fn unknown_tag_is_a_fault() {
    let definition = vocabulary(&["r", "v"]);
    assert_eq!(
        definition.parse_gold_line("他/r 来/v 了/y"),
        Err(LineError { token: 2, fault: TokenFault::UnknownLabel })
    );
    assert_eq!(
        definition.parse_gold_line("他/"),
        Err(LineError { token: 0, fault: TokenFault::UnknownLabel })
    );
    assert_eq!(
        definition.parse_gold_line("/y"),
        Err(LineError { token: 0, fault: TokenFault::UnknownLabel })
    );
}

#[test]
fn empty_word_is_a_fault() {
    let definition = vocabulary(&["r", "v"]);
    assert_eq!(
        definition.parse_gold_line("他/r /v"),
        Err(LineError { token: 1, fault: TokenFault::EmptyWord })
    );
}

#[test]
fn first_fault_of_a_line_wins() {
    let definition = vocabulary(&["r", "v"]);
    assert_eq!(
        definition.parse_gold_line("/r 来"),
        Err(LineError { token: 0, fault: TokenFault::EmptyWord })
    );
    assert_eq!(
        definition.parse_gold_line("他/x /r 来"),
        Err(LineError { token: 0, fault: TokenFault::UnknownLabel })
    );
}

#[test]
fn corpus_skips_empty_lines_and_keeps_the_order() {
    let definition = vocabulary(&["r", "v", "y"]);
    let text = lines(&["", "他/r 来/v", "", " \t", "了/y", "来/v 了/y 他/r", ""]);
    let samples = definition.parse_gold_features(&text).unwrap();
    assert_eq!(samples.len(), 3);
    assert_eq!(samples[0], definition.parse_gold_line("他/r 来/v").unwrap());
    assert_eq!(samples[1], definition.parse_gold_line("了/y").unwrap());
    assert_eq!(samples[2], definition.parse_gold_line("来/v 了/y 他/r").unwrap());
    assert_eq!(samples[0].1, vec![0, 1]);
    assert_eq!(samples[1].1, vec![2]);
    assert_eq!(samples[2].1, vec![1, 2, 0]);
}

#[test]
fn every_sample_stands_where_its_line_stood() {
    let names: Vec<String> = (0..200).map(|k| format!("t{}", k)).collect();
    let definition = POSDefinition::new(names.clone());
    let text: Vec<String> = (0..200).map(|k| format!("w{}/t{} end/t{}", k, k, 199 - k)).collect();
    let samples = definition.parse_gold_features(&text).unwrap();
    assert_eq!(samples.len(), 200);
    for (k, (keys, labels)) in samples.iter().enumerate() {
        assert_eq!(labels, &vec![k, 199 - k]);
        assert_eq!(keys[0][0], format!("2w{}", k));
        assert_eq!(keys.len(), 2);
    }
}

#[test]
fn corpus_read_in_parts_is_the_corpus_read_whole() {
    let definition = vocabulary(&["r", "v", "y"]);
    let text = lines(&["他/r", "", "来/v 了/y", "  ", "了/y", "\t", "他/r 来/v"]);
    let whole = definition.parse_gold_features(&text).unwrap();
    for cut in 0..=text.len() {
        let mut joined = definition.parse_gold_features(&text[..cut]).unwrap();
        joined.extend(definition.parse_gold_features(&text[cut..]).unwrap());
        assert_eq!(joined, whole);
    }
}

#[test]
fn corpus_names_the_first_faulty_line() {
    let definition = vocabulary(&["r", "v"]);
    let text = lines(&["他/r", " ", "来/v 了/y", "了"]);
    assert_eq!(
        definition.parse_gold_features(&text),
        Err(CorpusError { line: 2, token: 1, fault: TokenFault::UnknownLabel })
    );
    let text = lines(&["", "他/r 来/v", "x/r 了"]);
    assert_eq!(
        definition.parse_gold_features(&text),
        Err(CorpusError { line: 2, token: 1, fault: TokenFault::MissingTag })
    );
    let text = lines(&["/v"]);
    assert_eq!(
        definition.parse_gold_features(&text),
        Err(CorpusError { line: 0, token: 0, fault: TokenFault::EmptyWord })
    );
}

#[test]
fn empty_corpus_has_no_samples() {
    let definition = vocabulary(&["r"]);
    assert_eq!(definition.parse_gold_features(&[]), Ok(Vec::new()));
}

#[test]
fn workers_keep_the_order_of_the_lines() {
    let names: Vec<String> = (0..64).map(|k| format!("t{}", k)).collect();
    let definition = POSDefinition::new(names);
    let text: Vec<String> = (0..600)
        .map(|k| match k % 6 {
            3 => String::new(),
            5 => " \t".to_string(),
            _ => format!("w{}/t{} 词{}/t{}", k, k % 64, k, (k * 7) % 64),
        })
        .collect();
    let expected = definition.parse_gold_features(&text).unwrap();
    assert_eq!(expected.len(), 400);
    let kept: Vec<&String> = text.iter().filter(|line| !is_blank(line)).collect();
    for workers in [1usize, 2, 3, 8] {
        let pool = rayon::ThreadPoolBuilder::new().num_threads(workers).build().unwrap();
        let got: Vec<Sample> = pool.install(|| {
            kept.par_iter().map(|line| definition.parse_gold_line(line).unwrap()).collect()
        });
        assert_eq!(got, expected);
    }
}
