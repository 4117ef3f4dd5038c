//! The text formats of MiniKV's files, as mathematical functions.
//!
//! A line is read by a small scanner: words are separated by blanks, double
//! quotes group blanks into a word, and a backslash takes the next character
//! literally. A word is written as it is when it is non-empty and holds no
//! blank, `"` or `\`; otherwise it is written quoted, with `\` and `"` escaped.
use vstd::prelude::*;

verus! {

/// The state of the line scanner after some prefix of a line.
pub struct Scan {
    /// The words finished so far.
    pub words: Seq<Seq<char>>,
    /// The word being read.
    pub current: Seq<char>,
    /// Whether an opening quote is waiting for its closing one.
    pub in_quotes: bool,
    /// Whether the previous character was an escaping backslash.
    pub escaped: bool,
}

/// The scanner before any character.
pub open spec fn scan_start() -> Scan {
    Scan { words: Seq::empty(), current: Seq::empty(), in_quotes: false, escaped: false }
}

/// One step of the scanner.
pub open spec fn scan_step(s: Scan, c: char) -> Scan {
    if s.escaped {
        Scan { current: s.current.push(c), escaped: false, ..s }
    } else if c == '\\' {
        Scan { escaped: true, ..s }
    } else if c == '"' {
        Scan { in_quotes: !s.in_quotes, ..s }
    } else if c == ' ' && !s.in_quotes {
        if s.current.len() > 0 {
            Scan { words: s.words.push(s.current), current: Seq::empty(), ..s }
        } else {
            s
        }
    } else {
        Scan { current: s.current.push(c), ..s }
    }
}

/// The scanner after reading `cs` from state `s`.
pub open spec fn scan_from(s: Scan, cs: Seq<char>) -> Scan
    decreases cs.len(),
{
    if cs.len() == 0 {
        s
    } else {
        scan_step(scan_from(s, cs.drop_last()), cs.last())
    }
}

/// The words of a finished scan: those done, and the last one if any.
pub open spec fn scan_finish(s: Scan) -> Seq<Seq<char>> {
    if s.current.len() > 0 {
        s.words.push(s.current)
    } else {
        s.words
    }
}

/// The words of a line.
pub open spec fn split_words(l: Seq<char>) -> Seq<Seq<char>> {
    scan_finish(scan_from(scan_start(), l))
}

/// One character as written inside quotes.
pub open spec fn escape_char(c: char) -> Seq<char> {
    if c == '\\' || c == '"' {
        seq!['\\', c]
    } else {
        seq![c]
    }
}

/// A text with each `\` and `"` preceded by a backslash.
pub open spec fn escape_text(s: Seq<char>) -> Seq<char>
    decreases s.len(),
{
    if s.len() == 0 {
        Seq::empty()
    } else {
        escape_text(s.drop_last()) + escape_char(s.last())
    }
}

/// A text escaped and put between double quotes.
pub open spec fn quoted(s: Seq<char>) -> Seq<char> {
    seq!['"'] + escape_text(s) + seq!['"']
}

/// A word that the scanner reads back unchanged without quotes.
pub open spec fn plain_word(w: Seq<char>) -> bool {
    &&& w.len() > 0
    &&& forall|i: int| 0 <= i < w.len() ==> w[i] != ' ' && w[i] != '"' && w[i] != '\\'
}

/// A word as written in a file: as it is when plain, quoted otherwise.
pub open spec fn word_text(w: Seq<char>) -> Seq<char> {
    if plain_word(w) {
        w
    } else {
        quoted(w)
    }
}

/// A log record: the first word as it is, then each other one, after a blank.
pub open spec fn log_text(args: Seq<Seq<char>>) -> Seq<char>
    decreases args.len(),
{
    if args.len() == 0 {
        Seq::empty()
    } else if args.len() == 1 {
        args[0]
    } else {
        log_text(args.drop_last()) + seq![' '] + word_text(args.last())
    }
}

/// A snapshot line: the key and the value, each as a word, with a blank between.
pub open spec fn data_text(key: Seq<char>, value: Seq<char>) -> Seq<char> {
    word_text(key) + seq![' '] + word_text(value)
}

/// A scanner state outside quotes, holding `cur` as the word being read.
pub open spec fn between(words: Seq<Seq<char>>, cur: Seq<char>) -> Scan {
    Scan { words, current: cur, in_quotes: false, escaped: false }
}

/// Scanning a concatenation scans one part after the other.
pub proof fn lemma_scan_concat(s: Scan, a: Seq<char>, b: Seq<char>)
    ensures
        scan_from(s, a + b) == scan_from(scan_from(s, a), b),
    decreases b.len(),
{
    if b.len() == 0 {
        assert(a + b =~= a);
    } else {
        assert((a + b).drop_last() =~= a + b.drop_last());
        assert((a + b).last() == b.last());
        lemma_scan_concat(s, a, b.drop_last());
    }
}

/// Scanning one more character is one more step.
pub proof fn lemma_scan_push(s: Scan, a: Seq<char>, c: char)
    ensures
        scan_from(s, a.push(c)) == scan_step(scan_from(s, a), c),
{
    assert(a.push(c).drop_last() =~= a);
}

/// Outside quotes, a plain word is appended to the word being read.
pub proof fn lemma_scan_plain(words: Seq<Seq<char>>, cur: Seq<char>, w: Seq<char>)
    requires
        forall|i: int| 0 <= i < w.len() ==> w[i] != ' ' && w[i] != '"' && w[i] != '\\',
    ensures
        scan_from(between(words, cur), w) == between(words, cur + w),
    decreases w.len(),
{
    if w.len() == 0 {
        assert(cur + w =~= cur);
    } else {
        lemma_scan_plain(words, cur, w.drop_last());
        assert((cur + w.drop_last()).push(w.last()) =~= cur + w);
    }
}

/// Inside quotes, an escaped text is read back as it was.
pub proof fn lemma_scan_escaped(words: Seq<Seq<char>>, cur: Seq<char>, x: Seq<char>)
    ensures
        scan_from(Scan { words, current: cur, in_quotes: true, escaped: false }, escape_text(x))
            == (Scan { words, current: cur + x, in_quotes: true, escaped: false }),
    decreases x.len(),
{
    let s = Scan { words, current: cur, in_quotes: true, escaped: false };
    if x.len() == 0 {
        assert(cur + x =~= cur);
    } else {
        let c = x.last();
        lemma_scan_escaped(words, cur, x.drop_last());
        lemma_scan_concat(s, escape_text(x.drop_last()), escape_char(c));
        let mid = Scan { words, current: cur + x.drop_last(), in_quotes: true, escaped: false };
        assert((cur + x.drop_last()).push(c) =~= cur + x);
        if c == '\\' || c == '"' {
            lemma_scan_push(mid, seq!['\\'], c);
            assert(seq!['\\'].push(c) =~= escape_char(c));
            lemma_scan_push(mid, Seq::empty(), '\\');
            assert(Seq::<char>::empty().push('\\') =~= seq!['\\']);
        } else {
            lemma_scan_push(mid, Seq::empty(), c);
            assert(Seq::<char>::empty().push(c) =~= escape_char(c));
        }
    }
}

/// Outside quotes, a quoted text is appended to the word being read.
pub proof fn lemma_scan_quoted(words: Seq<Seq<char>>, cur: Seq<char>, x: Seq<char>)
    ensures
        scan_from(between(words, cur), quoted(x)) == between(words, cur + x),
{
    let s = between(words, cur);
    let open_q = seq!['"'];
    lemma_scan_concat(s, open_q + escape_text(x), seq!['"']);
    lemma_scan_concat(s, open_q, escape_text(x));
    lemma_scan_push(s, Seq::empty(), '"');
    assert(Seq::<char>::empty().push('"') =~= open_q);
    let inside = Scan { words, current: cur, in_quotes: true, escaped: false };
    assert(scan_from(s, open_q) == inside);
    lemma_scan_escaped(words, cur, x);
    let after = Scan { words, current: cur + x, in_quotes: true, escaped: false };
    lemma_scan_push(after, Seq::empty(), '"');
}

/// Outside quotes, a word as written is appended to the word being read.
pub proof fn lemma_scan_word(words: Seq<Seq<char>>, cur: Seq<char>, x: Seq<char>)
    ensures
        scan_from(between(words, cur), word_text(x)) == between(words, cur + x),
{
    if plain_word(x) {
        lemma_scan_plain(words, cur, x);
    } else {
        lemma_scan_quoted(words, cur, x);
    }
}

/// A blank then a written word finishes the word being read and starts the next one.
pub proof fn lemma_scan_next_word(words: Seq<Seq<char>>, cur: Seq<char>, x: Seq<char>)
    requires
        cur.len() > 0,
    ensures
        scan_from(between(words, cur), seq![' '] + word_text(x)) == between(words.push(cur), x),
{
    let s = between(words, cur);
    lemma_scan_concat(s, seq![' '], word_text(x));
    lemma_scan_push(s, Seq::empty(), ' ');
    assert(Seq::<char>::empty().push(' ') =~= seq![' ']);
    lemma_scan_word(words.push(cur), Seq::empty(), x);
    assert(Seq::<char>::empty() + x =~= x);
}

/// Scanning a log record leaves all its words but the last done, and the last one pending.
pub proof fn lemma_scan_log_text(args: Seq<Seq<char>>)
    requires
        args.len() > 0,
        plain_word(args[0]),
        forall|i: int| 1 <= i < args.len() ==> #[trigger] args[i].len() > 0,
    ensures
        scan_from(scan_start(), log_text(args)) == between(args.drop_last(), args.last()),
    decreases args.len(),
{
    if args.len() == 1 {
        lemma_scan_plain(Seq::empty(), Seq::empty(), args[0]);
        assert(Seq::<char>::empty() + args[0] =~= args[0]);
        assert(scan_start() == between(Seq::empty(), Seq::empty()));
        assert(args.drop_last() =~= Seq::<Seq<char>>::empty());
    } else {
        let front = args.drop_last();
        assert(front[0] == args[0]);
        assert forall|i: int| 1 <= i < front.len() implies #[trigger] front[i].len() > 0 by {
            assert(front[i] == args[i]);
        }
        lemma_scan_log_text(front);
        assert(front.last().len() > 0) by {
            if front.len() > 1 {
                assert(front.last() == args[front.len() - 1]);
            } else {
                assert(front.last() == args[0]);
            }
        }
        lemma_scan_concat(scan_start(), log_text(front), seq![' '] + word_text(args.last()));
        assert(log_text(front) + seq![' '] + word_text(args.last()) =~= log_text(front) + (seq![
            ' ',
        ] + word_text(args.last())));
        lemma_scan_next_word(front.drop_last(), front.last(), args.last());
        assert(front.drop_last().push(front.last()) =~= front);
    }
}

/// A log record is split back into the words it was made of.
pub proof fn lemma_split_log_text(args: Seq<Seq<char>>)
    requires
        args.len() > 0,
        plain_word(args[0]),
        forall|i: int| 1 <= i < args.len() ==> #[trigger] args[i].len() > 0,
    ensures
        split_words(log_text(args)) == args,
{
    lemma_scan_log_text(args);
    assert(args.last().len() > 0) by {
        if args.len() > 1 {
            assert(args.last() == args[args.len() - 1]);
        }
    }
    assert(args.drop_last().push(args.last()) =~= args);
}

/// A snapshot line of a non-empty key and value is split back into them.
pub proof fn lemma_split_data_text(key: Seq<char>, value: Seq<char>)
    requires
        key.len() > 0,
        value.len() > 0,
    ensures
        split_words(data_text(key, value)) == seq![key, value],
{
    let s = scan_start();
    assert(s == between(Seq::empty(), Seq::empty()));
    lemma_scan_concat(s, word_text(key), seq![' '] + word_text(value));
    assert(data_text(key, value) =~= word_text(key) + (seq![' '] + word_text(value)));
    lemma_scan_word(Seq::empty(), Seq::empty(), key);
    assert(Seq::<char>::empty() + key =~= key);
    lemma_scan_next_word(Seq::empty(), key, value);
    assert(Seq::<Seq<char>>::empty().push(key).push(value) =~= seq![key, value]);
}

} // verus!
