//! The data model of a version 1 index: entries, the containers that map
//! query words to results, and the options of a query.

use std::collections::HashMap;
use vstd::prelude::*;

verus! {

pub type EntryIndex = usize;

pub type AliasTarget = String;

pub type Score = u8;

/// Free-form fields attached to an entry or an excerpt.
pub type Fields = HashMap<String, String>;

/// How a query is answered. (The boost given to title matches is configured
/// elsewhere and is not part of this type.)
#[derive(Clone, Debug)]
pub struct QueryOptions {
    /// Total number of results to return.
    pub results: usize,
    /// Number of excerpts to buffer.
    pub excerpt_buffer: u8,
    /// Maximum number of excerpts per result.
    pub excerpts_per_result: u8,
}

impl Default for QueryOptions {
    fn default() -> (o: Self)
        ensures
            o.excerpt_buffer == 8,
            o.excerpts_per_result == 5,
            o.results == 10,
    {
        QueryOptions { excerpt_buffer: 8, excerpts_per_result: 5, results: 10 }
    }
}

impl QueryOptions {
    /// The default options: ten results, five excerpts per result, eight
    /// excerpts buffered.
    pub fn new() -> (o: Self)
        ensures
            o.excerpt_buffer == 8,
            o.excerpts_per_result == 5,
            o.results == 10,
    {
        QueryOptions::default()
    }
}

/// The whole contents of an index file, once deserialized.
#[derive(Clone, Debug, Default)]
pub struct Index {
    pub entries: Vec<Entry>,
    pub containers: HashMap<String, Container>,
}

/// One indexed document.
#[derive(Clone, Debug)]
pub struct Entry {
    pub contents: String,
    pub title: String,
    pub url: String,
    pub fields: Fields,
}

/// What a query word leads to: results by entry, and aliases (other words
/// that the query word stands for) with their scores. Each valid query
/// returns a single container, from which all its results derive.
#[derive(Clone, Debug, Default)]
pub struct Container {
    pub results: HashMap<EntryIndex, SearchResult>,
    pub aliases: HashMap<AliasTarget, Score>,
}

impl Container {
    /// A container with no results and no aliases.
    pub fn new() -> (c: Container)
        ensures
            c.results@ == Map::<EntryIndex, SearchResult>::empty(),
            c.aliases@ == Map::<AliasTarget, Score>::empty(),
    {
        Container { results: HashMap::new(), aliases: HashMap::new() }
    }
}

/// The excerpts of one entry that match a query word, and its score.
#[derive(Clone, Debug)]
pub struct SearchResult {
    pub excerpts: Vec<Excerpt>,
    pub score: Score,
}

/// Where a matched word stands in an entry.
#[derive(Clone, Debug, Default)]
pub struct Excerpt {
    pub word_index: usize,
    pub source: WordListSource,
    pub fields: Fields,
}

/// Which word list of an entry an excerpt comes from.
#[derive(Clone, Copy, Debug, PartialEq, Eq, Structural)]
pub enum WordListSource {
    Title,
    Contents,
}

impl Default for WordListSource {
    /// Excerpts come from the contents unless said otherwise.
    fn default() -> (s: Self)
        ensures
            s == WordListSource::Contents,
    {
        WordListSource::Contents
    }
}

/// A word of an entry with the fields in force where it stands.
#[derive(Clone, Debug, Default)]
pub struct AnnotatedWord {
    pub word: String,
    pub fields: Fields,
}

/// The words of an entry's contents, in order.
#[derive(Clone, Debug)]
pub struct Contents {
    pub word_list: Vec<AnnotatedWord>,
}

/// `words` joined by single spaces.
pub open spec fn join_words(words: Seq<Seq<char>>) -> Seq<char>
    decreases words.len(),
{
    if words.len() == 0 {
        Seq::empty()
    } else if words.len() == 1 {
        words[0]
    } else {
        join_words(words.drop_last()) + seq![' '] + words.last()
    }
}

impl Contents {
    /// The words of the contents, in order.
    pub open spec fn words(self) -> Seq<Seq<char>> {
        Seq::new(self.word_list@.len(), |i: int| self.word_list@[i].word@)
    }

    /// The text of the contents: its words joined by single spaces.
    pub fn get_full_text(&self) -> (text: String)
        ensures
            text@ == join_words(self.words()),
    {
        let ghost words = self.words();
        let mut text = String::new();
        let mut i: usize = 0;
        proof {
            assert(words.take(0) =~= Seq::<Seq<char>>::empty());
        }
        while i < self.word_list.len()
            invariant
                i <= self.word_list@.len(),
                words == self.words(),
                text@ == join_words(words.take(i as int)),
            decreases self.word_list@.len() - i,
        {
            if i > 0 {
                text.append(" ");
                proof {
                    reveal_strlit(" ");
                }
            }
            text.append(self.word_list[i].word.as_str());
            proof {
                let next = words.take(i + 1);
                assert(next.drop_last() =~= words.take(i as int));
                if i == 0 {
                    assert(text@ =~= next[0]);
                } else {
                    assert(text@ =~= join_words(next.drop_last()) + seq![' '] + next.last());
                }
            }
            i = i + 1;
        }
        proof {
            assert(words.take(self.word_list@.len() as int) =~= words);
        }
        text
    }
}

/// The pieces of `s` between the spaces, in order, as `str::split(' ')`
/// gives them: one more piece than there are spaces, empty pieces included.
pub open spec fn split_at_spaces(s: Seq<char>) -> Seq<Seq<char>>
    decreases s.len(),
{
    if s.len() == 0 {
        seq![Seq::<char>::empty()]
    } else {
        let pieces = split_at_spaces(s.drop_last());
        if s.last() == ' ' {
            pieces.push(Seq::<char>::empty())
        } else {
            pieces.update(pieces.len() - 1, pieces.last().push(s.last()))
        }
    }
}

proof fn lemma_split_len(s: Seq<char>)
    ensures
        split_at_spaces(s).len() >= 1,
    decreases s.len(),
{
    if s.len() > 0 {
        lemma_split_len(s.drop_last());
    }
}

proof fn lemma_split_after_space(p: Seq<char>, w: Seq<char>)
    requires
        !w.contains(' '),
    ensures
        split_at_spaces(p + seq![' '] + w) == split_at_spaces(p).push(w),
    decreases w.len(),
{
    let s = p + seq![' '] + w;
    if w.len() == 0 {
        assert(s =~= p + seq![' ']);
        assert(s.drop_last() =~= p);
        assert(w =~= Seq::<char>::empty());
    } else {
        let w0 = w.drop_last();
        assert(!w0.contains(' ')) by {
            if w0.contains(' ') {
                let k = choose|k: int| 0 <= k < w0.len() && w0[k] == ' ';
                assert(w[k] == ' ');
            }
        }
        assert(s.drop_last() =~= p + seq![' '] + w0);
        assert(s.last() == w.last());
        assert(w.last() != ' ') by {
            assert(w[w.len() - 1] == w.last());
        }
        lemma_split_after_space(p, w0);
        lemma_split_len(p);
        assert(split_at_spaces(s) =~= split_at_spaces(p).push(w0).update(
            split_at_spaces(p).len() as int,
            w0.push(w.last()),
        ));
        assert(w0.push(w.last()) =~= w);
        assert(split_at_spaces(s) =~= split_at_spaces(p).push(w));
    }
}

proof fn lemma_split_word(w: Seq<char>)
    requires
        !w.contains(' '),
    ensures
        split_at_spaces(w) == seq![w],
    decreases w.len(),
{
    if w.len() > 0 {
        let w0 = w.drop_last();
        assert(!w0.contains(' ')) by {
            if w0.contains(' ') {
                let k = choose|k: int| 0 <= k < w0.len() && w0[k] == ' ';
                assert(w[k] == ' ');
            }
        }
        assert(w.last() != ' ') by {
            assert(w[w.len() - 1] == w.last());
        }
        lemma_split_word(w0);
        assert(w0.push(w.last()) =~= w);
        assert(split_at_spaces(w) =~= seq![w]);
    } else {
        assert(w =~= Seq::<char>::empty());
    }
}

/// Splitting the full text at spaces gives back the words, when there is at
/// least one word and no word holds a space. The text depends on the words
/// alone: contents with the same words, whatever their fields, give the same
/// text.
pub proof fn full_text_splits_into_words(c: Contents, d: Contents)
    requires
        c.word_list@.len() >= 1,
        forall|i: int| 0 <= i < c.word_list@.len() ==> !(#[trigger] c.word_list@[i].word@).contains(
            ' ',
        ),
    ensures
        split_at_spaces(join_words(c.words())) == c.words(),
        d.words() == c.words() ==> join_words(d.words()) == join_words(c.words()),
{
    lemma_split_join(c.words());
}

proof fn lemma_split_join(words: Seq<Seq<char>>)
    requires
        words.len() >= 1,
        forall|i: int| 0 <= i < words.len() ==> !(#[trigger] words[i]).contains(' '),
    ensures
        split_at_spaces(join_words(words)) == words,
    decreases words.len(),
{
    if words.len() == 1 {
        lemma_split_word(words[0]);
        assert(seq![words[0]] =~= words);
    } else {
        let front = words.drop_last();
        assert forall|i: int| 0 <= i < front.len() implies !(#[trigger] front[i]).contains(' ') by {
            assert(front[i] == words[i]);
        }
        lemma_split_join(front);
        assert(!words.last().contains(' ')) by {
            assert(words[words.len() - 1] == words.last());
        }
        lemma_split_after_space(join_words(front), words.last());
        assert(front.push(words.last()) =~= words);
    }
}

} // verus!
