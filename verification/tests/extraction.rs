use pos_features::POSDefinition;

const SENTENCE: &str = "桂林 警备区 从 一九九○年 以来 ， 先后 修建 水电站 十五 座 ， 整修 水渠 六千七百四十 公里 ， \
兴修 水利 一千五百六十五 处 ， 修建 机耕路 一百二十六 公里 ， 修建 人 畜 饮水 工程 二百六十五 处 ， 解决 饮水 人口 \
六点五万 人 ， 使 八万 多 壮 、 瑶 、 苗 、 侗 、 回 等 民族 的 群众 脱 了 贫 ， 占 桂林 地 、 市 脱贫 人口 总数 \
的 百分之三十七点六 。";

fn owned(words: &[&str]) -> Vec<Vec<String>> {
    POSDefinition::default().parse_words_features(words)
}

fn strings(keys: &[&str]) -> Vec<String> {
    keys.iter().map(|k| k.to_string()).collect()
}

#[test]
fn test_vec_buffer() {
    let words: Vec<&str> = SENTENCE.split(' ').collect();
    assert_eq!(words.len(), 72);
    let definition = POSDefinition::default();
    let mut bytes: Vec<u8> = Vec::new();
    let owned = definition.parse_words_features(&words);
    let borrowed = definition.parse_words_features_with_buffer(&words, &mut bytes);
    assert_eq!(owned.len(), words.len());
    assert_eq!(borrowed.len(), words.len());
    for position in 0..words.len() {
        assert_eq!(owned[position].len(), borrowed[position].len());
        for k in 0..owned[position].len() {
            assert_eq!(owned[position][k], borrowed[position][k]);
        }
    }
    println!("{}/{}/{}", words.len(), bytes.len(), bytes.len() / words.len());
}

#[test]
fn empty_sentence_has_no_positions() {
    assert!(owned(&[]).is_empty());
    let mut bytes = vec![7u8, 8];
    let borrowed = POSDefinition::default().parse_words_features_with_buffer(&[], &mut bytes);
    assert!(borrowed.is_empty());
    assert_eq!(bytes, vec![7u8, 8]);
}

#[test]
fn one_word_of_three_characters_has_nine_keys() {
    let keys = owned(&["abc"]);
    assert_eq!(keys.len(), 1);
    assert_eq!(keys[0], strings(&["2abc", "cac", "f3", "ca", "db", "ec", "fc", "gb", "ha"]));
}

#[test]
fn one_long_word_has_nine_keys() {
    let keys = owned(&["一千五百六十五"]);
    assert_eq!(
        keys[0],
        strings(&["2一千五百六十五", "c一五", "f7", "c一", "d千", "e五", "f五", "g十", "h六"])
    );
}

#[test]
fn short_words_have_shorter_runs() {
    assert_eq!(owned(&["a"])[0], strings(&["2a", "caa", "f1", "ca", "fa"]));
    assert_eq!(owned(&["ab"])[0], strings(&["2ab", "cab", "f2", "ca", "db", "fb", "ga"]));
}

#[test]
fn two_words_have_twelve_keys_each() {
    let keys = owned(&["abc", "xyz"]);
    assert_eq!(keys.len(), 2);
    assert_eq!(
        keys[0],
        strings(&[
            "2abc", "cac", "f3", "ca", "db", "ec", "fc", "gb", "ha", "3xyz", "7abcxyz", "ecx",
        ])
    );
    assert_eq!(
        keys[1],
        strings(&[
            "2xyz", "cxz", "f3", "cx", "dy", "ez", "fz", "gy", "hx", "1abc", "6abcxyz", "dcx",
        ])
    );
}

#[test]
fn inner_word_has_twenty_two_keys() {
    let keys = owned(&["hello", "wonderful", "big", "world", "x"]);
    assert_eq!(
        keys[2],
        strings(&[
            "2big",
            "cbg",
            "f3",
            "cb",
            "di",
            "eg",
            "fg",
            "gi",
            "hb",
            "1wonderful",
            "6wonderfulbig",
            "dlb",
            "0hello",
            "5hellowonderful",
            "9hellobig",
            "3world",
            "7bigworld",
            "egw",
            "4x",
            "8worldx",
            "abigx",
            "bwonderfulbigworld",
        ])
    );
    assert_eq!(keys[0].len(), 9 + 6);
    assert_eq!(keys[1].len(), 9 + 3 + 6 + 1);
    assert_eq!(keys[3].len(), 9 + 6 + 3 + 1);
    assert_eq!(keys[4].len(), 5 + 6);
}

#[test]
fn three_single_character_words() {
    let keys = owned(&["他", "来", "了"]);
    assert_eq!(
        keys[0],
        strings(&[
            "2他", "c他他", "f1", "c他", "f他", "3来", "7他来", "e他来", "4了", "8来了", "a他了",
        ])
    );
    assert_eq!(
        keys[1],
        strings(&[
            "2来", "c来来", "f1", "c来", "f来", "1他", "6他来", "d他来", "3了", "7来了", "e来了",
            "b他来了",
        ])
    );
    assert_eq!(
        keys[2],
        strings(&[
            "2了", "c了了", "f1", "c了", "f了", "1来", "6来了", "d来了", "0他", "5他来", "9他了",
        ])
    );
}

#[test]
fn length_is_counted_in_characters_and_written_in_decimal() {
    assert_eq!(owned(&["百分之三十七点六"])[0][2], "f8");
    assert_eq!(owned(&["abcdefghij"])[0][2], "f10");
    assert_eq!(owned(&["abcdefghijklmnopqrstuvwxyz"])[0][2], "f26");
    let long = "é".repeat(1234);
    assert_eq!(owned(&[long.as_str()])[0][2], "f1234");
    let round = "x".repeat(100);
    assert_eq!(owned(&[round.as_str()])[0][2], "f100");
}

#[test]
fn characters_of_every_width_are_kept_whole() {
    let keys = owned(&["aé€😀"]);
    assert_eq!(
        keys[0],
        strings(&["2aé€😀", "ca😀", "f4", "ca", "dé", "e€", "f😀", "g€", "hé"])
    );
    let mut bytes = Vec::new();
    let borrowed = POSDefinition::default().parse_words_features_with_buffer(&["aé€😀"], &mut bytes);
    assert_eq!(borrowed[0], keys[0]);
}

#[test]
fn buffer_holds_the_keys_one_after_the_other() {
    let words = ["ab", "c"];
    let expected: String = owned(&words).concat().concat();
    let mut bytes = Vec::new();
    let borrowed = POSDefinition::default().parse_words_features_with_buffer(&words, &mut bytes);
    assert_eq!(borrowed.concat().concat(), expected);
    assert_eq!(bytes, expected.as_bytes());
    assert_eq!(expected, "2abcabf2cadbfbga3c7abcebc2ccccf1ccfc1ab6abcdbc");
}

#[test]
fn buffer_keeps_what_it_held() {
    let words = ["他", "来"];
    let mut bytes = vec![0xffu8, 0x00, b'z'];
    let expected = owned(&words);
    let tail: String = expected.concat().concat();
    {
        let borrowed =
            POSDefinition::default().parse_words_features_with_buffer(&words, &mut bytes);
        assert_eq!(borrowed, expected);
    }
    assert_eq!(&bytes[..3], &[0xffu8, 0x00, b'z']);
    assert_eq!(&bytes[3..], tail.as_bytes());
}

#[test]
fn buffer_is_shared_between_sentences() {
    let definition = POSDefinition::default();
    let mut bytes = Vec::new();
    let first_len;
    {
        let first = definition.parse_words_features_with_buffer(&["one", "two"], &mut bytes);
        assert_eq!(first, owned(&["one", "two"]));
        first_len = first.concat().concat().len();
    }
    assert_eq!(bytes.len(), first_len);
    let second = definition.parse_words_features_with_buffer(&["three"], &mut bytes);
    assert_eq!(second, owned(&["three"]));
}

#[test]
fn two_runs_give_the_same_keys() {
    let words: Vec<&str> = SENTENCE.split(' ').collect();
    assert_eq!(owned(&words), owned(&words));
    let definition = POSDefinition::default();
    let mut first = Vec::new();
    let mut second = Vec::new();
    let a = definition.parse_words_features_with_buffer(&words, &mut first);
    let b = definition.parse_words_features_with_buffer(&words, &mut second);
    assert_eq!(a, b);
    drop(a);
    drop(b);
    assert_eq!(first, second);
}

#[test]
fn both_ways_agree_on_many_sentences() {
    let pool = ["a", "bc", "def", "ghij", "桂林", "○", "é€", "😀😀😀😀😀", "/", "1234567890ab"];
    let definition = POSDefinition::default();
    let mut bytes = Vec::new();
    for len in 0..7usize {
        for shift in 0..pool.len() {
            let words: Vec<&str> = (0..len).map(|k| pool[(shift + 3 * k) % pool.len()]).collect();
            let expected = definition.parse_words_features(&words);
            let before = bytes.len();
            let got = definition.parse_words_features_with_buffer(&words, &mut bytes);
            assert_eq!(got, expected);
            let written: String = expected.concat().concat();
            assert_eq!(&bytes[before..], written.as_bytes());
        }
    }
}

#[test]
fn features_come_with_an_empty_fragment() {
    let definition = POSDefinition::default();
    let (fragment, keys) = definition.parse_features(&["ab", "c"]);
    assert_eq!(fragment, ());
    assert_eq!(keys, owned(&["ab", "c"]));
    let mut bytes = Vec::new();
    let (fragment, borrowed) = definition.parse_features_with_buffer(&["ab", "c"], &mut bytes);
    assert_eq!(fragment, ());
    assert_eq!(borrowed, keys);
}
