use search::index::v1::structs::{
    AnnotatedWord, Container, Contents, Excerpt, QueryOptions, WordListSource,
};
use std::collections::HashMap;

#[test]
fn get_full_text() {
    let intended = "This is-a set of words.".to_string();
    let generated = Contents {
        word_list: vec![
            AnnotatedWord {
                word: "This".to_string(),
                ..Default::default()
            },
            AnnotatedWord {
                word: "is-a".to_string(),
                fields: HashMap::default(),
            },
            AnnotatedWord {
                word: "set".to_string(),
                ..Default::default()
            },
            AnnotatedWord {
                word: "of".to_string(),
                ..Default::default()
            },
            AnnotatedWord {
                word: "words.".to_string(),
                ..Default::default()
            },
        ],
    }
    .get_full_text();

    assert_eq!(intended, generated);
}

#[test]
fn full_text_of_no_words_is_empty() {
    let contents = Contents { word_list: vec![] };
    assert_eq!(contents.get_full_text(), "");
}

#[test]
fn full_text_of_one_word_is_the_word() {
    let contents = Contents {
        word_list: vec![AnnotatedWord {
            word: "alone".to_string(),
            ..Default::default()
        }],
    };
    assert_eq!(contents.get_full_text(), "alone");
}

#[test]
fn full_text_keeps_empty_words() {
    let words = ["a", "", "b"];
    let contents = Contents {
        word_list: words
            .iter()
            .map(|w| AnnotatedWord {
                word: w.to_string(),
                ..Default::default()
            })
            .collect(),
    };
    assert_eq!(contents.get_full_text(), "a  b");
}

#[test]
fn default_query_options() {
    let options = QueryOptions::new();
    assert_eq!(options.results, 10);
    assert_eq!(options.excerpt_buffer, 8);
    assert_eq!(options.excerpts_per_result, 5);
    let default = QueryOptions::default();
    assert_eq!(default.results, 10);
}

#[test]
fn new_container_is_empty() {
    let container = Container::new();
    assert!(container.results.is_empty());
    assert!(container.aliases.is_empty());
}

#[test]
fn excerpts_come_from_contents_by_default() {
    assert_eq!(WordListSource::default(), WordListSource::Contents);
    let excerpt = Excerpt::default();
    assert_eq!(excerpt.source, WordListSource::Contents);
    assert_eq!(excerpt.word_index, 0);
}

#[test]
fn full_text_splits_back_into_its_words() {
    let words = ["Impossibly", "fast", "web", "search"];
    let with_fields = Contents {
        word_list: words
            .iter()
            .map(|w| {
                let mut fields = HashMap::new();
                fields.insert("k".to_string(), w.to_string());
                AnnotatedWord { word: w.to_string(), fields }
            })
            .collect(),
    };
    let text = with_fields.get_full_text();
    assert_eq!(text.split(' ').collect::<Vec<_>>(), words.to_vec());
    let without_fields = Contents {
        word_list: words
            .iter()
            .map(|w| AnnotatedWord { word: w.to_string(), ..Default::default() })
            .collect(),
    };
    assert_eq!(without_fields.get_full_text(), text);
}
