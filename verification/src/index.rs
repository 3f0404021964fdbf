//! Indexing crawled pages: the words of a page's text, and the index report.

use vstd::prelude::*;
use crate::lines::{string_of, views};
use crate::error::{ErrorKind, NeoError};
use crate::text::chars_of;
use crate::util::{humansize, humansize_spec};

verus! {

/// Whether a character is a letter or a digit in Unicode's sense, as
/// `char::is_alphanumeric` tells.
pub uninterp spec fn alphanumeric(c: char) -> bool;

/// Whether a character is an ASCII letter or digit.
pub open spec fn ascii_alphanumeric(c: char) -> bool {
    ('a' <= c && c <= 'z') || ('A' <= c && c <= 'Z') || ('0' <= c && c <= '9')
}

/// `char::is_alphanumeric`: the result is the named predicate `alphanumeric`
/// of the character (the Unicode `Alphabetic` property or a numeric
/// general category); the Unicode tables are not written out here. Of an
/// ASCII character it is stated that it is alphanumeric exactly when it is
/// an ASCII letter or digit, as `char::is_ascii_alphanumeric` tells.
#[verifier::external_body]
fn is_alphanumeric(c: char) -> (b: bool)
    ensures
        b == alphanumeric(c),
        (c as u32) < 128 ==> (b <==> ascii_alphanumeric(c)),
{
    c.is_alphanumeric()
}

/// Whether a text parses as a list of CSS selectors, as `scraper::Selector::parse` decides.
pub uninterp spec fn valid_selector(selectors: Seq<char>) -> bool;

/// The text nodes, in document order, of the elements that the selectors
/// match in the HTML document `source`.
pub uninterp spec fn document_texts(source: Seq<char>, selectors: Seq<char>) -> Seq<Seq<char>>;

/// The text nodes, in document order, of the elements that the selectors
/// match in the HTML fragment `source`.
pub uninterp spec fn fragment_texts(source: Seq<char>, selectors: Seq<char>) -> Seq<Seq<char>>;

/// `scraper::Selector::parse`: whether it accepts the text; the result is
/// the named predicate `valid_selector` of the text (the CSS grammar is not
/// written out here).
#[verifier::external_body]
fn selector_parses(selectors: &str) -> (b: bool)
    ensures
        b == valid_selector(selectors@),
{
    scraper::Selector::parse(selectors).is_ok()
}

/// `scraper::Html::parse_document`, then `Html::select` with the parsed
/// selectors and `ElementRef::text` on each element found: the text nodes
/// are the named result `document_texts` of the two texts (HTML parsing and
/// selector matching are not written out here).
#[verifier::external_body]
fn select_document_texts(source: &str, selectors: &str) -> (texts: Vec<String>)
    requires
        valid_selector(selectors@),
    ensures
        views(texts@) == document_texts(source@, selectors@),
{
    let document = scraper::Html::parse_document(source);
    let selector = scraper::Selector::parse(selectors).unwrap();
    document.select(&selector).flat_map(|element| element.text()).map(|t| t.to_string()).collect()
}

/// `scraper::Html::parse_fragment`, then `Html::select` with the parsed
/// selectors and `ElementRef::text` on each element found: the text nodes
/// are the named result `fragment_texts` of the two texts (HTML parsing and
/// selector matching are not written out here).
#[verifier::external_body]
fn select_fragment_texts(source: &str, selectors: &str) -> (texts: Vec<String>)
    requires
        valid_selector(selectors@),
    ensures
        views(texts@) == fragment_texts(source@, selectors@),
{
    let document = scraper::Html::parse_fragment(source);
    let selector = scraper::Selector::parse(selectors).unwrap();
    document.select(&selector).flat_map(|element| element.text()).map(|t| t.to_string()).collect()
}

/// An HTML text to select from: its source, read as a whole document or
/// as a fragment.
pub struct Html {
    source: String,
    fragment: bool,
}

impl View for Html {
    type V = (Seq<char>, bool);

    closed spec fn view(&self) -> (Seq<char>, bool) {
        (self.source@, self.fragment)
    }
}

impl Html {
    /// The text read as a whole HTML document.
    pub fn parse_document(document: &str) -> (h: Html)
        ensures
            h@ == (document@, false),
    {
        Html { source: String::from_str(document), fragment: false }
    }

    /// The text read as an HTML fragment.
    pub fn parse_fragment(fragment: &str) -> (h: Html)
        ensures
            h@ == (fragment@, true),
    {
        Html { source: String::from_str(fragment), fragment: true }
    }
}

/// A list of CSS selectors that parses.
pub struct Selector {
    text: String,
}

impl View for Selector {
    type V = Seq<char>;

    closed spec fn view(&self) -> Seq<char> {
        self.text@
    }
}

impl Selector {
    #[verifier::type_invariant]
    spec fn parses(self) -> bool {
        valid_selector(self.text@)
    }

    /// The selectors of `selectors`, if the text parses.
    pub fn parse(selectors: &str) -> (r: Result<Selector, NeoError>)
        ensures
            r is Ok <==> valid_selector(selectors@),
            r matches Ok(s) ==> s@ == selectors@,
            r matches Err(e) ==> e@ == (ErrorKind::Message, "invalid selector: "@ + selectors@),
    {
        if selector_parses(selectors) {
            Ok(Selector { text: String::from_str(selectors) })
        } else {
            let mut text = String::from_str("invalid selector: ");
            text.append(selectors);
            Err(NeoError::Message(text))
        }
    }
}

/// The text nodes that `selector` picks out of `document`.
pub open spec fn selected_texts(document: (Seq<char>, bool), selector: Seq<char>) -> Seq<Seq<char>> {
    if document.1 {
        fragment_texts(document.0, selector)
    } else {
        document_texts(document.0, selector)
    }
}

/// A character in lower case if it is an ASCII capital (`char::to_ascii_lowercase`).
pub open spec fn lower_ascii(c: char) -> char {
    if 'A' <= c && c <= 'Z' {
        ((c as u32) + 32) as char
    } else {
        c
    }
}

/// One character of a text read into words (the last word being the one in
/// progress): a space starts a new word, a letter or digit joins the
/// current word in ASCII lower case, anything else is dropped.
pub open spec fn word_step(words: Seq<Seq<char>>, c: char) -> Seq<Seq<char>> {
    if c == ' ' {
        words.push(Seq::empty())
    } else if alphanumeric(c) {
        words.update(words.len() - 1, words.last().push(lower_ascii(c)))
    } else {
        words
    }
}

/// The words of a text: the pieces between single spaces (empty ones
/// included), each reduced to its letters and digits in ASCII lower case.
pub open spec fn text_words(s: Seq<char>) -> Seq<Seq<char>>
    decreases s.len(),
{
    if s.len() == 0 {
        seq![Seq::empty()]
    } else {
        word_step(text_words(s.drop_last()), s.last())
    }
}

/// The words of several texts, one text after another.
pub open spec fn texts_words(texts: Seq<Seq<char>>) -> Seq<Seq<char>>
    decreases texts.len(),
{
    if texts.len() == 0 {
        Seq::empty()
    } else {
        texts_words(texts.drop_last()) + text_words(texts.last())
    }
}

/// A character that a word may hold: an ASCII lower-case letter or digit,
/// or a character beyond ASCII that is alphanumeric.
pub open spec fn word_char(c: char) -> bool {
    if (c as u32) < 128 {
        ('a' <= c && c <= 'z') || ('0' <= c && c <= '9')
    } else {
        alphanumeric(c)
    }
}

/// Whether every character of a word is a `word_char`.
pub open spec fn all_word_chars(w: Seq<char>) -> bool {
    forall|j: int| 0 <= j < w.len() ==> word_char(#[trigger] w[j])
}

proof fn lemma_text_words_nonempty(s: Seq<char>)
    ensures
        text_words(s).len() > 0,
    decreases s.len(),
{
    if s.len() > 0 {
        lemma_text_words_nonempty(s.drop_last());
    }
}

fn to_lower_ascii(c: char) -> (l: char)
    ensures
        l == lower_ascii(c),
{
    if 'A' <= c && c <= 'Z' {
        ((c as u8) + 32) as char
    } else {
        c
    }
}

/// Appends the words of `text` to `out`.
fn push_text_words(out: &mut Vec<String>, text: &String)
    ensures
        views(final(out)@) == views(old(out)@) + text_words(text@),
        forall|k: int|
            old(out)@.len() <= k < final(out)@.len() ==> all_word_chars(#[trigger] final(out)@[k]@),
{
    let chars = chars_of(text.as_str());
    let mut cur: Vec<char> = Vec::new();
    let mut i: usize = 0;
    let ghost start = views(out@);
    assert(chars@.take(0) =~= Seq::<char>::empty());
    assert(views(out@).push(cur@) =~= start + text_words(chars@.take(0)));
    while i < chars.len()
        invariant
            chars@ == text@,
            i <= chars.len(),
            views(out@).push(cur@) == start + text_words(chars@.take(i as int)),
            start.len() <= out@.len(),
            forall|k: int| start.len() <= k < out@.len() ==> all_word_chars(#[trigger] out@[k]@),
            all_word_chars(cur@),
        decreases chars.len() - i,
    {
        let c = chars[i];
        let ghost before = text_words(chars@.take(i as int));
        proof {
            assert(chars@.take(i + 1).drop_last() =~= chars@.take(i as int));
            lemma_text_words_nonempty(chars@.take(i as int));
        }
        let ghost old_out = views(out@);
        let ghost old_cur = cur@;
        if c == ' ' {
            let word = string_of(&cur);
            out.push(word);
            cur = Vec::new();
            proof {
                assert(views(out@) =~= old_out.push(old_cur));
                assert(views(out@).push(cur@) =~= start + before.push(Seq::empty()));
            }
        } else if is_alphanumeric(c) {
            let l = to_lower_ascii(c);
            proof {
                if 'A' <= c && c <= 'Z' {
                    assert(((c as u32) + 32) as char == l);
                    assert('a' <= l && l <= 'z');
                }
                assert(word_char(l));
            }
            cur.push(l);
            proof {
                assert(cur@.last() == l);
                assert forall|j: int| 0 <= j < cur@.len() implies word_char(#[trigger] cur@[j]) by {
                    if j < cur@.len() - 1 {
                        assert(cur@[j] == old_cur[j]);
                    }
                }
                assert(before =~= (start + before).subrange(start.len() as int, (start + before).len() as int));
                assert(views(out@).push(cur@) =~= old_out.push(old_cur).update(
                    old_out.len() as int,
                    old_cur.push(lower_ascii(c)),
                ));
                assert(views(out@).push(cur@) =~= start + before.update(
                    before.len() - 1,
                    before.last().push(lower_ascii(c)),
                ));
            }
        }
        i = i + 1;
    }
    assert(chars@.take(chars.len() as int) =~= chars@);
    let word = string_of(&cur);
    out.push(word);
}

/// The words of `texts`, one text after another.
pub fn words_of_texts(texts: &Vec<String>) -> (words: Vec<String>)
    ensures
        views(words@) == texts_words(views(texts@)),
        forall|k: int| 0 <= k < words@.len() ==> all_word_chars(#[trigger] words@[k]@),
{
    let mut words: Vec<String> = Vec::new();
    let mut i: usize = 0;
    assert(views(words@) =~= texts_words(views(texts@).take(0)));
    while i < texts.len()
        invariant
            i <= texts.len(),
            views(words@) == texts_words(views(texts@).take(i as int)),
            forall|k: int| 0 <= k < words@.len() ==> all_word_chars(#[trigger] words@[k]@),
        decreases texts.len() - i,
    {
        proof {
            assert(views(texts@).take(i + 1).drop_last() =~= views(texts@).take(i as int));
            assert(views(texts@).take(i + 1).last() == texts@[i as int]@);
        }
        let ghost before = words@;
        push_text_words(&mut words, &texts[i]);
        proof {
            assert forall|k: int| 0 <= k < words@.len() implies all_word_chars(#[trigger] words@[k]@) by {
                if k < before.len() {
                    assert(views(words@)[k] == views(before)[k]);
                }
            }
        }
        i = i + 1;
    }
    assert(views(texts@).take(texts.len() as int) =~= views(texts@));
    words
}

/// The words of the elements of `document` that `selector` matches: their
/// text nodes in document order, read into words as `words_of_texts` does.
pub fn parse_words(document: &Html, selector: &Selector) -> (words: Vec<String>)
    ensures
        views(words@) == texts_words(selected_texts(document@, selector@)),
        forall|k: int| 0 <= k < words@.len() ==> all_word_chars(#[trigger] words@[k]@),
{
    proof {
        use_type_invariant(selector);
    }
    let texts = if document.fragment {
        select_fragment_texts(document.source.as_str(), selector.text.as_str())
    } else {
        select_document_texts(document.source.as_str(), selector.text.as_str())
    };
    words_of_texts(&texts)
}

/// The sizes of the parts of an index.
pub struct IndexSummary {
    dictionary_size: u64,
    posting_list_size: u64,
    docstore_size: u64,
}

impl IndexSummary {
    pub fn new(dictionary_size: u64, posting_list_size: u64, docstore_size: u64) -> (s: IndexSummary)
        ensures
            s.dictionary() == dictionary_size,
            s.posting_list() == posting_list_size,
            s.docstore() == docstore_size,
    {
        IndexSummary { dictionary_size, posting_list_size, docstore_size }
    }

    pub closed spec fn dictionary(&self) -> u64 {
        self.dictionary_size
    }

    pub closed spec fn posting_list(&self) -> u64 {
        self.posting_list_size
    }

    pub closed spec fn docstore(&self) -> u64 {
        self.docstore_size
    }

    /// The report, as the program prints it. The total size must fit in a `u64`.
    pub fn describe(&self) -> (text: String)
        requires
            self.dictionary() + self.posting_list() + self.docstore() <= u64::MAX,
        ensures
            text@ == "index file size: "@ + humansize_spec(
                (self.dictionary() + self.posting_list() + self.docstore()) as u64,
            ) + "\n\tdictionary: "@ + humansize_spec(self.dictionary()) + "\n\tposting list: "@
                + humansize_spec(self.posting_list()) + "\n\tdocstore: "@ + humansize_spec(
                self.docstore(),
            ),
    {
        let mut text = String::from_str("index file size: ");
        let total = humansize(self.dictionary_size + self.posting_list_size + self.docstore_size);
        text.append(total.as_str());
        text.append("\n\tdictionary: ");
        let d = humansize(self.dictionary_size);
        text.append(d.as_str());
        text.append("\n\tposting list: ");
        let p = humansize(self.posting_list_size);
        text.append(p.as_str());
        text.append("\n\tdocstore: ");
        let s = humansize(self.docstore_size);
        text.append(s.as_str());
        text
    }
}


/// The word of a text without spaces: its alphanumeric characters, in
/// order, in ASCII lower case.
pub open spec fn kept_chars(s: Seq<char>) -> Seq<char> {
    s.filter(|c: char| alphanumeric(c)).map_values(|c: char| lower_ascii(c))
}

proof fn lemma_word_step_appends(x: Seq<Seq<char>>, y: Seq<Seq<char>>, c: char)
    requires
        y.len() > 0,
    ensures
        word_step(x + y, c) == x + word_step(y, c),
{
    if c == ' ' {
        assert((x + y).push(Seq::empty()) =~= x + y.push(Seq::empty()));
    } else if alphanumeric(c) {
        assert((x + y).last() == y.last());
        assert((x + y).update((x + y).len() - 1, y.last().push(lower_ascii(c))) =~= x + y.update(
            y.len() - 1,
            y.last().push(lower_ascii(c)),
        ));
    }
}

/// The words of a text are its pieces between single spaces: a text with
/// `k` spaces has `k + 1` words, a text without a space is exactly one
/// word (its alphanumeric characters in ASCII lower case), and the words
/// of two texts joined by a space are the words of the first followed by
/// those of the second.
pub proof fn lemma_text_words_split_at_spaces(a: Seq<char>, b: Seq<char>)
    ensures
        text_words(a).len() == a.filter(|c: char| c == ' ').len() + 1,
        !a.contains(' ') ==> text_words(a) == seq![kept_chars(a)],
        text_words(a + seq![' '] + b) == text_words(a) + text_words(b),
    decreases a.len() + b.len(),
{
    broadcast use vstd::seq_lib::group_filter_ensures;

    if b.len() > 0 {
        let x = a + seq![' '] + b;
        lemma_text_words_split_at_spaces(a, b.drop_last());
        assert(x.drop_last() =~= a + seq![' '] + b.drop_last());
        assert(x.last() == b.last());
        lemma_text_words_nonempty(b.drop_last());
        lemma_word_step_appends(text_words(a), text_words(b.drop_last()), b.last());
    } else {
        assert((a + seq![' '] + b).drop_last() =~= a);
        assert(text_words(b) =~= seq![Seq::<char>::empty()]);
        assert(text_words(a).push(Seq::empty()) =~= text_words(a) + text_words(b));
    }
    if a.len() == 0 {
        assert(a.filter(|c: char| c == ' ') =~= Seq::<char>::empty()) by {
            reveal(Seq::filter);
        }
        assert(kept_chars(a) =~= Seq::<char>::empty()) by {
            reveal(Seq::filter);
        }
    } else {
        let p = a.drop_last();
        let c = a.last();
        lemma_text_words_split_at_spaces(p, b);
        lemma_text_words_nonempty(p);
        assert(a =~= p.push(c));
        p.lemma_filter_push(c, |c: char| c == ' ');
        p.lemma_filter_push(c, |c: char| alphanumeric(c));
        if !a.contains(' ') {
            assert(!p.contains(' ')) by {
                if p.contains(' ') {
                    let k = choose|k: int| 0 <= k < p.len() && p[k] == ' ';
                    assert(a[k] == ' ');
                }
            }
            assert(c != ' ') by {
                assert(a[a.len() - 1] == c);
            }
            if alphanumeric(c) {
                assert(kept_chars(a) =~= kept_chars(p).push(lower_ascii(c)));
                assert(seq![kept_chars(p)].update(0, kept_chars(p).push(lower_ascii(c))) =~= seq![
                    kept_chars(a),
                ]);
            } else {
                assert(kept_chars(a) =~= kept_chars(p));
            }
        }
    }
}

} // verus!
