//! The in-memory key-value store of MiniKV, with the text of its files.
//!
//! The store is kept as a sequence of key-value pairs with distinct keys; it
//! stands for the map that [`pairs_map`] gives. The log file is a list of
//! records `set key value` (set) and `set key` (unset); the snapshot file a
//! list of lines `key value`. A key or value that is empty or holds a blank,
//! `"` or `\` is written between double quotes, with `\` and `"` escaped.
//! This module builds those lines and replays them; reading and writing the
//! files is the caller's part.
use crate::command_type::{keyword_type, CommandType};
use crate::errors;
use crate::format::{
    data_text, escape_text, lemma_scan_push, log_text, plain_word, quoted, scan_from, scan_start,
    split_words, word_text, Scan,
};
use crate::laws::{law_snapshot_read_back, pairs_non_empty};
use crate::model::{
    keys_distinct, lemma_pairs_map, lemma_pairs_map_push, lemma_pairs_map_remove,
    lemma_pairs_map_update, pairs_map, Pair,
};
use crate::text::{owned, push_char, same_text};
use vstd::prelude::*;
use vstd::string::StrSliceExecFns;
use vstd::string::StringExecFns;

verus! {

/// The texts of a sequence of strings.
pub open spec fn texts(v: Seq<String>) -> Seq<Seq<char>> {
    v.map_values(|s: String| s@)
}

/// The texts of a sequence of string slices.
pub open spec fn str_texts(v: Seq<&str>) -> Seq<Seq<char>> {
    v.map_values(|s: &str| s@)
}

/// The map after one snapshot line, if the line holds exactly two words.
pub open spec fn data_step(m: Map<Seq<char>, Seq<char>>, line: Seq<char>) -> Option<
    Map<Seq<char>, Seq<char>>,
> {
    let w = split_words(line);
    if w.len() == 2 {
        Some(m.insert(w[0], w[1]))
    } else {
        None
    }
}

/// Replays snapshot lines on a map: the map reached, and whether every line was
/// well formed. Replay stops at the first line that is not.
pub open spec fn data_replay(m: Map<Seq<char>, Seq<char>>, lines: Seq<Seq<char>>) -> (
    Map<Seq<char>, Seq<char>>,
    bool,
)
    decreases lines.len(),
{
    if lines.len() == 0 {
        (m, true)
    } else {
        let prev = data_replay(m, lines.drop_last());
        if !prev.1 {
            prev
        } else {
            match data_step(prev.0, lines.last()) {
                Some(next) => (next, true),
                None => (prev.0, false),
            }
        }
    }
}

/// The map after one log record given by its words: `set k v` sets, `set k`
/// unsets; anything else is not a record.
pub open spec fn log_step(m: Map<Seq<char>, Seq<char>>, words: Seq<Seq<char>>) -> Option<
    Map<Seq<char>, Seq<char>>,
> {
    if words.len() == 0 {
        None
    } else if keyword_type(words[0]) == Some(CommandType::SetKey) {
        if words.len() == 3 {
            Some(m.insert(words[1], words[2]))
        } else if words.len() == 2 {
            Some(m.remove(words[1]))
        } else {
            None
        }
    } else {
        None
    }
}

/// Replays log lines on a map: the map reached, and whether every line was a
/// record. Replay stops at the first line that is not.
pub open spec fn log_replay(m: Map<Seq<char>, Seq<char>>, lines: Seq<Seq<char>>) -> (
    Map<Seq<char>, Seq<char>>,
    bool,
)
    decreases lines.len(),
{
    if lines.len() == 0 {
        (m, true)
    } else {
        let prev = log_replay(m, lines.drop_last());
        if !prev.1 {
            prev
        } else {
            match log_step(prev.0, split_words(lines.last())) {
                Some(next) => (next, true),
                None => (prev.0, false),
            }
        }
    }
}

/// The snapshot lines of a sequence of pairs, in order.
pub open spec fn snapshot_texts(ps: Seq<Pair>) -> Seq<Seq<char>> {
    ps.map_values(|p: Pair| data_text(p.0, p.1))
}

/// Every key of a map, and every value, is non-empty.
pub open spec fn map_texts_non_empty(m: Map<Seq<char>, Seq<char>>) -> bool {
    forall|k: Seq<char>| #[trigger] m.contains_key(k) ==> k.len() > 0 && m[k].len() > 0
}

/// The lines are a snapshot of the map: one line `data_text(k, m[k])` per key
/// `k`, and no other line; and, when no key or value is empty, reading the
/// lines back rebuilds the map with every line accepted.
pub open spec fn snapshot_of(m: Map<Seq<char>, Seq<char>>, lines: Seq<Seq<char>>) -> bool {
    &&& lines.len() == m.len()
    &&& forall|k: Seq<char>| #[trigger]
        m.contains_key(k) ==> exists|i: int|
            0 <= i < lines.len() && #[trigger] lines[i] == data_text(k, m[k])
    &&& forall|i: int|
        0 <= i < lines.len() ==> exists|k: Seq<char>| #[trigger]
            m.contains_key(k) && #[trigger] lines[i] == data_text(k, m[k])
    &&& map_texts_non_empty(m) ==> data_replay(Map::empty(), lines) == (m, true)
}

/// The snapshot lines of pairs with distinct keys are a snapshot of their map.
pub proof fn lemma_snapshot_of_pairs(ps: Seq<Pair>)
    requires
        keys_distinct(ps),
    ensures
        snapshot_of(pairs_map(ps), snapshot_texts(ps)),
{
    let m = pairs_map(ps);
    let lines = snapshot_texts(ps);
    lemma_pairs_map(ps);
    assert forall|k: Seq<char>| #[trigger] m.contains_key(k) implies exists|i: int|
        0 <= i < lines.len() && #[trigger] lines[i] == data_text(k, m[k]) by {
        let i = choose|i: int| 0 <= i < ps.len() && ps[i].0 == k;
        assert(m[ps[i].0] == ps[i].1);
        assert(lines[i] == data_text(k, m[k]));
    }
    assert forall|i: int| 0 <= i < lines.len() implies exists|k: Seq<char>| #[trigger]
        m.contains_key(k) && #[trigger] lines[i] == data_text(k, m[k]) by {
        assert(m[ps[i].0] == ps[i].1);
        assert(m.contains_key(ps[i].0));
        assert(lines[i] == data_text(ps[i].0, m[ps[i].0]));
    }
    if map_texts_non_empty(m) {
        assert(pairs_non_empty(ps)) by {
            assert forall|i: int| 0 <= i < ps.len() implies #[trigger] ps[i].0.len() > 0
                && ps[i].1.len() > 0 by {
                assert(m.contains_key(ps[i].0));
                assert(m[ps[i].0] == ps[i].1);
            }
        }
        law_snapshot_read_back(ps);
    }
}

/// The in-memory key-value store.
pub struct Item {
    /// The key-value pairs, no key twice.
    items: Vec<(String, String)>,
}

impl Item {
    /// The pairs of the store, as texts, in the order they are kept.
    pub closed spec fn entries(&self) -> Seq<Pair> {
        self.items@.map_values(|p: (String, String)| (p.0@, p.1@))
    }

    /// No key is held twice.
    #[verifier::type_invariant]
    closed spec fn keys_unique(&self) -> bool {
        keys_distinct(self.entries())
    }
}

impl View for Item {
    type V = Map<Seq<char>, Seq<char>>;

    open spec fn view(&self) -> Map<Seq<char>, Seq<char>> {
        pairs_map(self.entries())
    }
}

impl Item {
    /// Builds a store from the lines of the snapshot file and then those of the
    /// log file (empty when a file is missing). Fails with `INVALID DATA FILE`
    /// when a snapshot line does not hold exactly two words, and otherwise with
    /// `INVALID LOG FILE` when a log line is not a record.
    pub fn new(data_lines: &[String], log_lines: &[String]) -> (r: Result<Self, String>)
        ensures
            ({
                let d = data_replay(Map::empty(), texts(data_lines@));
                let g = log_replay(d.0, texts(log_lines@));
                &&& (r is Ok <==> d.1 && g.1)
                &&& (r matches Ok(it) ==> it@ == g.0)
                &&& (r matches Err(e) ==> e@ == if !d.1 {
                    errors::INVALID_DATA_FILE@
                } else {
                    errors::INVALID_LOG_FILE@
                })
            }),
    {
        let mut store = Item { items: Vec::new() };
        assert(store@ == Map::<Seq<char>, Seq<char>>::empty()) by {
            assert(store.entries().len() == 0);
        }
        match store.read_data(data_lines) {
            Ok(()) => {},
            Err(e) => {
                return Err(e);
            },
        }
        match store.read_log(log_lines) {
            Ok(()) => {},
            Err(e) => {
                return Err(e);
            },
        }
        Ok(store)
    }

    /// The number of keys in the store (which holds finitely many).
    pub fn length(&self) -> (n: usize)
        ensures
            n == self@.len(),
            self@.dom().finite(),
    {
        proof {
            use_type_invariant(self);
            lemma_pairs_map(self.entries());
        }
        self.items.len()
    }

    /// The position of a key among the pairs, if it is there.
    fn find(&self, key: &str) -> (r: Option<usize>)
        ensures
            match r {
                Some(i) => i < self.entries().len() && self.entries()[i as int].0 == key@,
                None => forall|i: int| 0 <= i < self.entries().len() ==> self.entries()[i].0 != key@,
            },
    {
        let n = self.items.len();
        let mut i: usize = 0;
        while i < n
            invariant
                n == self.items@.len(),
                i <= n,
                forall|j: int| 0 <= j < i ==> self.entries()[j].0 != key@,
            decreases n - i,
        {
            if same_text(self.items[i].0.as_str(), key) {
                return Some(i);
            }
            i = i + 1;
        }
        None
    }

    /// The value of a key, if the key is there.
    pub fn get(&self, key: &str) -> (r: Option<&String>)
        ensures
            match r {
                Some(v) => self@.contains_key(key@) && v@ == self@[key@],
                None => !self@.contains_key(key@),
            },
    {
        proof {
            use_type_invariant(self);
            lemma_pairs_map(self.entries());
        }
        match self.find(key) {
            Some(i) => {
                assert(self.entries()[i as int].0 == key@);
                Some(&self.items[i].1)
            },
            None => None,
        }
    }

    /// Sets the value of a key in memory, adding the key if it is not there.
    /// The log record of the change is `Item::log_line` of `set`, the key and
    /// the value (see `Command::pending_write`); writing it is the caller's part.
    pub fn set(&mut self, key: String, value: String)
        ensures
            final(self)@ == old(self)@.insert(key@, value@),
    {
        proof {
            use_type_invariant(&*self);
        }
        let ghost ps = self.entries();
        let found = self.find(key.as_str());
        let mut items: Vec<(String, String)> = Vec::new();
        std::mem::swap(&mut items, &mut self.items);
        let ghost k = key@;
        let ghost v = value@;
        match found {
            Some(i) => {
                proof {
                    lemma_pairs_map_update(ps, i as int, v);
                }
                items.set(i, (key, value));
                assert(items@.map_values(|p: (String, String)| (p.0@, p.1@)) =~= ps.update(
                    i as int,
                    (k, v),
                ));
            },
            None => {
                proof {
                    lemma_pairs_map_push(ps, k, v);
                }
                items.push((key, value));
                assert(items@.map_values(|p: (String, String)| (p.0@, p.1@)) =~= ps.push((k, v)));
            },
        }
        self.items = items;
    }

    /// Removes a key from memory, if it is there. The log record of the change
    /// is `Item::log_line` of `set` and the key (see `Command::pending_write`);
    /// writing it is the caller's part.
    pub fn unset(&mut self, key: String)
        ensures
            final(self)@ == old(self)@.remove(key@),
    {
        proof {
            use_type_invariant(&*self);
            lemma_pairs_map(self.entries());
        }
        let ghost ps = self.entries();
        match self.find(key.as_str()) {
            Some(i) => {
                proof {
                    lemma_pairs_map_remove(ps, i as int);
                }
                let mut items: Vec<(String, String)> = Vec::new();
                std::mem::swap(&mut items, &mut self.items);
                items.remove(i);
                assert(items@.map_values(|p: (String, String)| (p.0@, p.1@)) =~= ps.remove(
                    i as int,
                ));
                self.items = items;
            },
            None => {
                assert(!self@.contains_key(key@));
                assert(self@ =~= old(self)@.remove(key@));
            },
        }
    }

    /// Splits a line into words: blanks separate words, double quotes keep
    /// blanks inside a word, and a backslash takes the next character as it is.
    /// Empty words are dropped.
    pub fn split_line(l: &str) -> (r: Vec<String>)
        ensures
            texts(r@) == split_words(l@),
            forall|i: int| 0 <= i < r@.len() ==> #[trigger] r@[i]@.len() > 0,
    {
        let n = l.unicode_len();
        let mut words: Vec<String> = Vec::new();
        let mut current = String::new();
        let mut in_quotes = false;
        let mut escaped = false;
        let mut i: usize = 0;
        assert(l@.take(0) =~= Seq::<char>::empty());
        assert(texts(words@) =~= Seq::<Seq<char>>::empty());
        while i < n
            invariant
                n == l@.len(),
                i <= n,
                scan_from(scan_start(), l@.take(i as int)) == (Scan {
                    words: texts(words@),
                    current: current@,
                    in_quotes,
                    escaped,
                }),
                forall|j: int| 0 <= j < words@.len() ==> #[trigger] words@[j]@.len() > 0,
            decreases n - i,
        {
            let c = l.get_char(i);
            proof {
                lemma_scan_push(scan_start(), l@.take(i as int), c);
                assert(l@.take(i as int).push(c) =~= l@.take(i + 1));
            }
            if escaped {
                push_char(&mut current, c);
                escaped = false;
            } else if c == '\\' {
                escaped = true;
            } else if c == '"' {
                in_quotes = !in_quotes;
            } else if c == ' ' && !in_quotes {
                if !current.as_str().is_empty() {
                    let ghost old_words = words@;
                    words.push(current);
                    current = String::new();
                    assert(texts(words@) =~= texts(old_words).push(texts(words@).last()));
                }
            } else {
                push_char(&mut current, c);
            }
            i = i + 1;
        }
        assert(l@.take(n as int) =~= l@);
        if !current.as_str().is_empty() {
            let ghost old_words = words@;
            words.push(current);
            assert(texts(words@) =~= texts(old_words).push(texts(words@).last()));
        }
        words
    }

    /// Appends a text with each `\` and `"` preceded by a backslash.
    fn push_escaped(line: &mut String, s: &str)
        ensures
            final(line)@ == old(line)@ + escape_text(s@),
    {
        let n = s.unicode_len();
        let mut i: usize = 0;
        while i < n
            invariant
                n == s@.len(),
                i <= n,
                line@ == old(line)@ + escape_text(s@.take(i as int)),
            decreases n - i,
        {
            let c = s.get_char(i);
            assert(s@.take(i + 1).drop_last() =~= s@.take(i as int));
            if c == '\\' || c == '"' {
                push_char(line, '\\');
            }
            push_char(line, c);
            assert(line@ =~= old(line)@ + escape_text(s@.take(i + 1)));
            i = i + 1;
        }
        assert(s@.take(n as int) =~= s@);
    }

    /// Whether a word can be written as it is: non-empty, with no blank, `"`
    /// or `\\`.
    fn is_plain(s: &str) -> (r: bool)
        ensures
            r == plain_word(s@),
    {
        let n = s.unicode_len();
        if n == 0 {
            return false;
        }
        let mut i: usize = 0;
        while i < n
            invariant
                n == s@.len(),
                i <= n,
                forall|j: int| 0 <= j < i ==> s@[j] != ' ' && s@[j] != '"' && s@[j] != '\\',
            decreases n - i,
        {
            let c = s.get_char(i);
            if c == ' ' || c == '"' || c == '\\' {
                return false;
            }
            i = i + 1;
        }
        true
    }

    /// Appends a word as it is written in the files: as it is when plain,
    /// between double quotes and escaped otherwise.
    fn push_word(line: &mut String, s: &str)
        ensures
            final(line)@ == old(line)@ + word_text(s@),
    {
        if Self::is_plain(s) {
            line.append(s);
        } else {
            push_char(line, '"');
            Self::push_escaped(line, s);
            push_char(line, '"');
            assert(line@ =~= old(line)@ + quoted(s@));
        }
    }

    /// The log record of a command given by its words: the first word as it
    /// is, then each other word after a blank, quoted and escaped unless it is
    /// plain. No words give no record.
    pub fn log_line(args: &[&str]) -> (r: Option<String>)
        ensures
            r is None <==> args@.len() == 0,
            r matches Some(l) ==> l@ == log_text(str_texts(args@)),
    {
        let n = args.len();
        if n == 0 {
            return None;
        }
        let ghost a = str_texts(args@);
        let mut line = owned(args[0]);
        assert(a.take(1) =~= seq![a[0]]);
        let mut i: usize = 1;
        while i < n
            invariant
                n == args@.len(),
                a == str_texts(args@),
                1 <= i <= n,
                line@ == log_text(a.take(i as int)),
            decreases n - i,
        {
            let ghost before = line@;
            push_char(&mut line, ' ');
            Self::push_word(&mut line, args[i]);
            assert(a.take(i + 1).drop_last() =~= a.take(i as int));
            assert(a.take(i + 1).last() == a[i as int]);
            assert(line@ =~= before + seq![' '] + word_text(a[i as int]));
            i = i + 1;
        }
        assert(a.take(n as int) =~= a);
        Some(line)
    }

    /// The lines of a snapshot of the store: one `key value` line per key,
    /// each word written as in the log, in the order the pairs are kept.
    pub fn data_lines(&self) -> (r: Vec<String>)
        ensures
            texts(r@) == snapshot_texts(self.entries()),
            snapshot_of(self@, texts(r@)),
    {
        proof {
            use_type_invariant(self);
            lemma_snapshot_of_pairs(self.entries());
        }
        let n = self.items.len();
        let mut out: Vec<String> = Vec::new();
        let mut i: usize = 0;
        while i < n
            invariant
                n == self.items@.len(),
                i <= n,
                texts(out@) == snapshot_texts(self.entries().take(i as int)),
            decreases n - i,
        {
            let mut line = String::new();
            Self::push_word(&mut line, self.items[i].0.as_str());
            push_char(&mut line, ' ');
            Self::push_word(&mut line, self.items[i].1.as_str());
            let ghost p = self.entries()[i as int];
            assert(line@ =~= data_text(p.0, p.1));
            let ghost before = out@;
            out.push(line);
            assert(self.entries().take(i + 1) =~= self.entries().take(i as int).push(p));
            assert(texts(out@) =~= texts(before).push(data_text(p.0, p.1)));
            assert(snapshot_texts(self.entries().take(i + 1)) =~= snapshot_texts(
                self.entries().take(i as int),
            ).push(data_text(p.0, p.1)));
            i = i + 1;
        }
        assert(self.entries().take(n as int) =~= self.entries());
        out
    }

    /// Loads snapshot lines: each must hold exactly a key and a value, which is
    /// set. Stops with `INVALID DATA FILE` at the first line that does not.
    pub fn read_data(&mut self, lines: &[String]) -> (r: Result<(), String>)
        ensures
            final(self)@ == data_replay(old(self)@, texts(lines@)).0,
            r is Ok <==> data_replay(old(self)@, texts(lines@)).1,
            r matches Err(e) ==> e@ == errors::INVALID_DATA_FILE@,
    {
        let n = lines.len();
        let ghost start = self@;
        let ghost t = texts(lines@);
        let mut i: usize = 0;
        while i < n
            invariant
                n == lines@.len(),
                t == texts(lines@),
                start == old(self)@,
                i <= n,
                data_replay(start, t.take(i as int)) == (self@, true),
            decreases n - i,
        {
            let words = Self::split_line(lines[i].as_str());
            assert(t.take(i + 1).drop_last() =~= t.take(i as int));
            assert(t.take(i + 1).last() == lines@[i as int]@);
            if words.len() == 2 {
                let k = owned(words[0].as_str());
                let v = owned(words[1].as_str());
                self.set(k, v);
            } else {
                proof {
                    assert(data_replay(start, t.take(i + 1)) == (self@, false));
                    lemma_replay_stops_data(start, t, i as int);
                }
                return Err(owned(errors::INVALID_DATA_FILE));
            }
            i = i + 1;
        }
        assert(t.take(n as int) =~= t);
        Ok(())
    }

    /// Applies one log record given by its words: `set k v` sets, `set k`
    /// unsets. Anything else is an `INVALID LOG FILE`, and the store is kept.
    fn apply_log_line(&mut self, args: &[String]) -> (r: Result<(), String>)
        ensures
            match log_step(old(self)@, texts(args@)) {
                Some(m) => r is Ok && final(self)@ == m,
                None => r is Err && r->Err_0@ == errors::INVALID_LOG_FILE@ && final(self)@ == old(
                    self,
                )@,
            },
    {
        let ghost a = texts(args@);
        if args.len() == 0 {
            return Err(owned(errors::INVALID_LOG_FILE));
        }
        assert(a[0] == args@[0]@);
        match CommandType::from_keyword(args[0].as_str()) {
            Ok(CommandType::SetKey) => {
                if args.len() == 3 {
                    assert(a[1] == args@[1]@ && a[2] == args@[2]@);
                    let k = owned(args[1].as_str());
                    let v = owned(args[2].as_str());
                    self.set(k, v);
                    Ok(())
                } else if args.len() == 2 {
                    assert(a[1] == args@[1]@);
                    let k = owned(args[1].as_str());
                    self.unset(k);
                    Ok(())
                } else {
                    Err(owned(errors::INVALID_LOG_FILE))
                }
            },
            _ => Err(owned(errors::INVALID_LOG_FILE)),
        }
    }

    /// Replays log lines: each must be a record, which is applied in turn.
    /// Stops with `INVALID LOG FILE` at the first line that is not.
    pub fn read_log(&mut self, lines: &[String]) -> (r: Result<(), String>)
        ensures
            final(self)@ == log_replay(old(self)@, texts(lines@)).0,
            r is Ok <==> log_replay(old(self)@, texts(lines@)).1,
            r matches Err(e) ==> e@ == errors::INVALID_LOG_FILE@,
    {
        let n = lines.len();
        let ghost start = self@;
        let ghost t = texts(lines@);
        let mut i: usize = 0;
        while i < n
            invariant
                n == lines@.len(),
                t == texts(lines@),
                start == old(self)@,
                i <= n,
                log_replay(start, t.take(i as int)) == (self@, true),
            decreases n - i,
        {
            let words = Self::split_line(lines[i].as_str());
            assert(t.take(i + 1).drop_last() =~= t.take(i as int));
            assert(t.take(i + 1).last() == lines@[i as int]@);
            match self.apply_log_line(words.as_slice()) {
                Ok(()) => {},
                Err(e) => {
                    proof {
                        assert(log_replay(start, t.take(i + 1)) == (self@, false));
                        lemma_replay_stops_log(start, t, i as int);
                    }
                    return Err(e);
                },
            }
            i = i + 1;
        }
        assert(t.take(n as int) =~= t);
        Ok(())
    }
}

/// Once snapshot replay has stopped on a line, later lines change nothing.
proof fn lemma_replay_stops_data(m: Map<Seq<char>, Seq<char>>, t: Seq<Seq<char>>, i: int)
    requires
        0 <= i < t.len(),
        !data_replay(m, t.take(i + 1)).1,
    ensures
        data_replay(m, t) == data_replay(m, t.take(i + 1)),
    decreases t.len() - i,
{
    if i + 1 == t.len() {
        assert(t.take(i + 1) =~= t);
    } else {
        assert(t.take(i + 2).drop_last() =~= t.take(i + 1));
        lemma_replay_stops_data(m, t, i + 1);
    }
}

/// Once log replay has stopped on a line, later lines change nothing.
proof fn lemma_replay_stops_log(m: Map<Seq<char>, Seq<char>>, t: Seq<Seq<char>>, i: int)
    requires
        0 <= i < t.len(),
        !log_replay(m, t.take(i + 1)).1,
    ensures
        log_replay(m, t) == log_replay(m, t.take(i + 1)),
    decreases t.len() - i,
{
    if i + 1 == t.len() {
        assert(t.take(i + 1) =~= t);
    } else {
        assert(t.take(i + 2).drop_last() =~= t.take(i + 1));
        lemma_replay_stops_log(m, t, i + 1);
    }
}

} // verus!
