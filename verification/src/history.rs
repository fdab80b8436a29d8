use vstd::prelude::*;
use crate::text::{chars_string, is_whitespace, join_lines, str_chars, trim, trim_vec};

verus! {

/// The most commands a history keeps.
pub const MAX_ENTRIES: usize = 10_000;

/// Whether a line holds nothing but whitespace.
pub open spec fn is_blank(l: Seq<char>) -> bool {
    forall|i: int| 0 <= i < l.len() ==> is_whitespace(#[trigger] l[i])
}

/// `l` without one trailing carriage return.
pub open spec fn strip_cr(l: Seq<char>) -> Seq<char> {
    if l.len() > 0 && l.last() == '\r' {
        l.drop_last()
    } else {
        l
    }
}

/// Splitting `s` at line ends, left to right: the lines ended so far
/// (each without its `\n` or `\r\n`) and the line still open.
pub open spec fn lines_acc(s: Seq<char>) -> (Seq<Seq<char>>, Seq<char>)
    decreases s.len(),
{
    if s.len() == 0 {
        (Seq::empty(), Seq::empty())
    } else {
        let (done, cur) = lines_acc(s.drop_last());
        if s.last() == '\n' {
            (done.push(strip_cr(cur)), Seq::empty())
        } else {
            (done, cur.push(s.last()))
        }
    }
}

/// The lines of `s` as `str::lines` gives them: split at `\n` or `\r\n`,
/// a last line without line end included when it is not empty.
pub open spec fn file_lines(s: Seq<char>) -> Seq<Seq<char>> {
    let (done, cur) = lines_acc(s);
    if cur.len() > 0 {
        done.push(cur)
    } else {
        done
    }
}

/// The entries that a history file holds: its lines that are not blank.
pub open spec fn parse_history(s: Seq<char>) -> Seq<Seq<char>> {
    file_lines(s).filter(|l: Seq<char>| !is_blank(l))
}

/// The text a history is stored as: one entry per line, each line ended by
/// a newline.
pub open spec fn history_file(entries: Seq<Seq<char>>) -> Seq<char> {
    join_lines(entries).push('\n')
}

/// The log after recording `command`: it is trimmed, and when something is
/// left it is added as the newest line, the oldest lines beyond
/// [`MAX_ENTRIES`] being dropped.
pub open spec fn append_spec(log: Seq<Seq<char>>, command: Seq<char>) -> Seq<Seq<char>> {
    let c = trim(command);
    if c.len() == 0 {
        log
    } else {
        let l = log.push(c);
        if l.len() > MAX_ENTRIES {
            l.skip(l.len() - MAX_ENTRIES)
        } else {
            l
        }
    }
}

/// Whether `entry` completes `prefix`: it starts with it and is longer.
pub open spec fn completes(entry: Seq<char>, prefix: Seq<char>) -> bool {
    prefix.is_prefix_of(entry) && entry != prefix
}

/// The weight of a use that lies `age` lines before the end of the log
/// (0 for the newest line): 4 within the last 1000 lines, 2 within the last
/// 5000, 1 before that.
pub open spec fn use_weight(age: int) -> nat {
    if age < 1000 {
        4
    } else if age < 5000 {
        2
    } else {
        1
    }
}

/// The weighted uses of `e` among the first `k` lines of `log`, each
/// weighted by its age in the whole log.
pub open spec fn score_upto(log: Seq<Seq<char>>, e: Seq<char>, k: int) -> nat
    decreases k,
{
    if k <= 0 {
        0
    } else {
        score_upto(log, e, k - 1) + (if log[k - 1] == e {
            use_weight(log.len() - k)
        } else {
            0
        })
    }
}

/// How often and how recently `e` was used: the sum of the weights of its
/// lines in the log.
pub open spec fn score(log: Seq<Seq<char>>, e: Seq<char>) -> nat {
    score_upto(log, e, log.len() as int)
}

/// The index of the last of the first `k` lines of `log` that is `e`; -1
/// when there is none.
pub open spec fn last_use_upto(log: Seq<Seq<char>>, e: Seq<char>, k: int) -> int
    decreases k,
{
    if k <= 0 {
        -1
    } else if log[k - 1] == e {
        k - 1
    } else {
        last_use_upto(log, e, k - 1)
    }
}

/// The index of the latest use of `e` in `log`; -1 when it was never used.
pub open spec fn last_use(log: Seq<Seq<char>>, e: Seq<char>) -> int {
    last_use_upto(log, e, log.len() as int)
}

/// Whether `e` ranks above `f`: a higher score, or the same score and a
/// later last use.
pub open spec fn ranks_above(log: Seq<Seq<char>>, e: Seq<char>, f: Seq<char>) -> bool {
    score(log, e) > score(log, f) || (score(log, e) == score(log, f) && last_use(log, e) > last_use(log, f))
}

/// Whether `e` is the suggestion for `prefix`: the prefix is not blank, `e`
/// is in the log and completes it, and ranks above every other command of
/// the log that completes it.
pub open spec fn is_suggestion(log: Seq<Seq<char>>, prefix: Seq<char>, e: Seq<char>) -> bool {
    &&& trim(prefix).len() > 0
    &&& log.contains(e)
    &&& completes(e, prefix)
    &&& forall|i: int|
        0 <= i < log.len() && completes(#[trigger] log[i], prefix) && log[i] != e ==> ranks_above(log, e, log[i])
}

/// Whether there is nothing to suggest for `prefix`: it is blank, or no
/// line of the log completes it.
pub open spec fn no_suggestion(log: Seq<Seq<char>>, prefix: Seq<char>) -> bool {
    trim(prefix).len() == 0 || forall|i: int| 0 <= i < log.len() ==> !completes(#[trigger] log[i], prefix)
}

/// Whether line `i` of `log` is the first use of its command.
pub open spec fn first_use(log: Seq<Seq<char>>, i: int) -> bool {
    forall|j: int| 0 <= j < i ==> log[j] != log[i]
}

/// The number of distinct commands among the first `k` lines of `log`.
pub open spec fn distinct_upto(log: Seq<Seq<char>>, k: int) -> nat
    decreases k,
{
    if k <= 0 {
        0
    } else {
        distinct_upto(log, k - 1) + (if first_use(log, k - 1) {
            1nat
        } else {
            0nat
        })
    }
}

/// The command history behind inline suggestions: a log of the commands
/// run, oldest first, one line per use.
pub struct History {
    entries: Vec<String>,
}

impl View for History {
    type V = Seq<Seq<char>>;

    closed spec fn view(&self) -> Seq<Seq<char>> {
        self.entries@.map_values(|e: String| e@)
    }
}

impl History {
    /// An empty history.
    pub fn new() -> (h: History)
        ensures
            h@ == Seq::<Seq<char>>::empty(),
    {
        let h = History { entries: Vec::new() };
        assert(h@ =~= Seq::<Seq<char>>::empty());
        h
    }

    /// The history that a history file with contents `text` holds.
    pub fn from_contents(text: &str) -> (h: History)
        ensures
            h@ == parse_history(text@),
    {
        let chars = str_chars(text);
        let mut entries: Vec<String> = Vec::new();
        let mut cur: Vec<char> = Vec::new();
        let ghost pred = |l: Seq<char>| !is_blank(l);
        let mut i: usize = 0;
        proof {
            assert(chars@.subrange(0, 0) =~= Seq::<char>::empty());
            reveal_with_fuel(Seq::filter, 1);
        }
        while i < chars.len()
            invariant
                i <= chars@.len(),
                chars@ == text@,
                pred == (|l: Seq<char>| !is_blank(l)),
                entries@.map_values(|e: String| e@) == lines_acc(chars@.subrange(0, i as int)).0.filter(pred),
                cur@ == lines_acc(chars@.subrange(0, i as int)).1,
            decreases chars@.len() - i,
        {
            let ch = chars[i];
            let ghost pre = chars@.subrange(0, i as int);
            proof {
                assert(chars@.subrange(0, i + 1).drop_last() =~= pre);
            }
            if ch == '\n' {
                if cur.len() > 0 && cur[cur.len() - 1] == '\r' {
                    cur.pop();
                }
                let ghost line = cur@;
                let mut blank = true;
                let mut j: usize = 0;
                while j < cur.len()
                    invariant
                        j <= cur@.len(),
                        blank == (forall|k: int| 0 <= k < j ==> is_whitespace(#[trigger] cur@[k])),
                    decreases cur@.len() - j,
                {
                    if !crate::text::char_is_whitespace(cur[j]) {
                        blank = false;
                    }
                    j = j + 1;
                }
                let ghost before = entries@.map_values(|e: String| e@);
                if !blank {
                    entries.push(chars_string(&cur));
                }
                proof {
                    reveal_with_fuel(Seq::filter, 1);
                    let done = lines_acc(pre).0;
                    assert(done.push(line).drop_last() =~= done);
                    assert(entries@.map_values(|e: String| e@) =~= done.push(line).filter(pred));
                }
                cur = Vec::new();
            } else {
                cur.push(ch);
            }
            i = i + 1;
        }
        // The last line, when it has no line end.
        let mut blank = true;
        let mut j: usize = 0;
        while j < cur.len()
            invariant
                j <= cur@.len(),
                blank == (forall|k: int| 0 <= k < j ==> is_whitespace(#[trigger] cur@[k])),
            decreases cur@.len() - j,
        {
            if !crate::text::char_is_whitespace(cur[j]) {
                blank = false;
            }
            j = j + 1;
        }
        let ghost done = lines_acc(chars@).0;
        proof {
            assert(chars@.subrange(0, i as int) =~= chars@);
        }
        if cur.len() > 0 && !blank {
            entries.push(chars_string(&cur));
        }
        proof {
            reveal_with_fuel(Seq::filter, 1);
            assert(done.push(cur@).drop_last() =~= done);
            assert(entries@.map_values(|e: String| e@) =~= parse_history(text@));
        }
        History { entries }
    }

    /// The number of distinct commands in the history.
    pub fn len(&self) -> (n: usize)
        ensures
            n == distinct_upto(self@, self@.len() as int),
    {
        let mut n: usize = 0;
        let mut i: usize = 0;
        while i < self.entries.len()
            invariant
                i <= self@.len(),
                self@.len() == self.entries@.len(),
                n == distinct_upto(self@, i as int),
                n <= i,
            decreases self@.len() - i,
        {
            let mut seen = false;
            let mut j: usize = 0;
            while j < i
                invariant
                    j <= i < self@.len(),
                    self@.len() == self.entries@.len(),
                    seen == (exists|k: int| 0 <= k < j && self@[k] == self@[i as int]),
                decreases i - j,
            {
                proof {
                    assert(self.entries@[j as int]@ == self@[j as int]);
                    assert(self.entries@[i as int]@ == self@[i as int]);
                }
                if self.entries[j] == self.entries[i] {
                    seen = true;
                }
                j = j + 1;
            }
            proof {
                if seen {
                    let k = choose|k: int| 0 <= k < i && self@[k] == self@[i as int];
                    assert(!first_use(self@, i as int));
                } else {
                    assert(first_use(self@, i as int));
                }
            }
            if !seen {
                n = n + 1;
            }
            i = i + 1;
        }
        n
    }

    /// The number of lines of the log, one per recorded use.
    pub fn log_len(&self) -> (n: usize)
        ensures
            n == self@.len(),
    {
        self.entries.len()
    }

    /// Line `i` of the log, oldest first.
    pub fn entry(&self, i: usize) -> (e: &str)
        requires
            i < self@.len(),
        ensures
            e@ == self@[i as int],
    {
        self.entries[i].as_str()
    }
}


impl History {
    /// The text of the history file: one entry per line.
    pub fn file_contents(&self) -> (s: String)
        ensures
            s@ == history_file(self@),
    {
        let mut out = String::new();
        let mut i: usize = 0;
        proof {
            assert(self@.subrange(0, 0) =~= Seq::<Seq<char>>::empty());
        }
        while i < self.entries.len()
            invariant
                i <= self@.len(),
                self@.len() == self.entries@.len(),
                out@ == join_lines(self@.subrange(0, i as int)),
            decreases self@.len() - i,
        {
            let line = str_chars(self.entries[i].as_str());
            crate::text::append_line(&mut out, &line, i == 0, Ghost(self@.subrange(0, i as int)));
            proof {
                assert(self@.subrange(0, i as int).push(line@) =~= self@.subrange(0, i + 1));
            }
            i = i + 1;
        }
        assert(self@.subrange(0, i as int) =~= self@);
        crate::text::push_char(&mut out, '\n');
        out
    }

    /// Records `command` (see [`append_spec`]); returns whether anything
    /// was recorded, that is whether the command is not blank.
    pub fn append(&mut self, command: &str) -> (recorded: bool)
        ensures
            final(self)@ == append_spec(old(self)@, command@),
            recorded == (trim(command@).len() > 0),
    {
        let cv = trim_vec(&str_chars(command));
        if cv.len() == 0 {
            return false;
        }
        let c = chars_string(&cv);
        let ghost old_v = self@;
        self.entries.push(c);
        let ghost all = old_v.push(cv@);
        assert(self@ =~= all);
        if self.entries.len() > MAX_ENTRIES {
            let excess = self.entries.len() - MAX_ENTRIES;
            let rest = self.entries.split_off(excess);
            self.entries = rest;
            assert(self@ =~= all.skip(excess as int));
        }
        true
    }

    /// The score and the last use of the command on line `i` (see
    /// [`score`] and [`last_use`]).
    fn stats(&self, i: usize) -> (r: (u128, usize))
        requires
            i < self@.len(),
        ensures
            r.0 == score(self@, self@[i as int]),
            r.1 == last_use(self@, self@[i as int]),
    {
        let n = self.entries.len();
        let ghost log = self@;
        let ghost e = log[i as int];
        let mut sc: u128 = 0;
        let mut last: usize = i;
        let mut j: usize = 0;
        while j < n
            invariant
                n == log.len(),
                log == self@,
                self@.len() == self.entries@.len(),
                i < n,
                e == log[i as int],
                j <= n,
                sc == score_upto(log, e, j as int),
                sc <= 4 * j,
                last == (if j > i { last_use_upto(log, e, j as int) } else { i as int }),
            decreases n - j,
        {
            proof {
                assert(self.entries@[j as int]@ == log[j as int]);
                assert(self.entries@[i as int]@ == e);
            }
            if self.entries[j] == self.entries[i] {
                let age = n - 1 - j;
                let w: u128 = if age < 1000 {
                    4
                } else if age < 5000 {
                    2
                } else {
                    1
                };
                sc = sc + w;
                if j >= i {
                    last = j;
                }
            }
            j = j + 1;
        }
        (sc, last)
    }

    /// The suggestion for `prefix`: of the commands in the log that start
    /// with `prefix` and are longer, the one with the highest score (see
    /// [`score`]), the latest used on a tie; none for a blank prefix.
    pub fn suggest(&self, prefix: &str) -> (s: Option<&str>)
        ensures
            s matches Some(e) ==> is_suggestion(self@, prefix@, e@),
            s is None ==> no_suggestion(self@, prefix@),
    {
        let p = str_chars(prefix);
        let t = trim_vec(&p);
        if t.len() == 0 {
            return None;
        }
        let ghost log = self@;
        let n = self.entries.len();
        let mut best: Option<(usize, u128, usize)> = None;
        let mut i: usize = 0;
        while i < n
            invariant
                n == log.len(),
                log == self@,
                self@.len() == self.entries@.len(),
                p@ == prefix@,
                i <= n,
                best is None ==> forall|k: int| 0 <= k < i ==> !completes(#[trigger] log[k], prefix@),
                best matches Some(b) ==> {
                    &&& b.0 < i
                    &&& completes(log[b.0 as int], prefix@)
                    &&& b.1 == score(log, log[b.0 as int])
                    &&& b.2 == last_use(log, log[b.0 as int])
                    &&& forall|k: int|
                        0 <= k < i && completes(#[trigger] log[k], prefix@) && log[k] != log[b.0 as int]
                            ==> ranks_above(log, log[b.0 as int], log[k])
                },
            decreases n - i,
        {
            proof {
                assert(self.entries@[i as int]@ == log[i as int]);
            }
            if completes_chars(self.entries[i].as_str(), &p) {
                let (sc, last) = self.stats(i);
                match best {
                    None => {
                        best = Some((i, sc, last));
                    },
                    Some((bi, bs, bl)) => {
                        proof {
                            lemma_last_use_identifies(log, log[i as int], i as int);
                            lemma_last_use_identifies(log, log[bi as int], bi as int);
                        }
                        if sc > bs || (sc == bs && last > bl) {
                            best = Some((i, sc, last));
                        }
                    },
                }
            }
            i = i + 1;
        }
        match best {
            None => None,
            Some((bi, _, _)) => {
                proof {
                    assert(self.entries@[bi as int]@ == log[bi as int]);
                    assert(log.contains(log[bi as int]));
                }
                Some(self.entries[bi].as_str())
            },
        }
    }
}

/// Whether `e` completes the prefix `p` (see [`completes`]).
fn completes_chars(e: &str, p: &Vec<char>) -> (b: bool)
    ensures
        b == completes(e@, p@),
{
    let e = str_chars(e);
    let mut ok = p.len() <= e.len();
    let mut j: usize = 0;
    if ok {
        while j < p.len()
            invariant
                p@.len() <= e@.len(),
                j <= p@.len(),
                ok == (forall|k: int| 0 <= k < j ==> p@[k] == e@[k]),
            decreases p@.len() - j,
        {
            if p[j] != e[j] {
                ok = false;
            }
            j = j + 1;
        }
    }
    let b = ok && e.len() != p.len();
    proof {
        if b {
            assert(p@ =~= e@.subrange(0, p@.len() as int));
        }
        if p@.is_prefix_of(e@) && e@ != p@ {
            assert forall|k: int| 0 <= k < p@.len() implies p@[k] == e@[k] by {
                assert(e@.subrange(0, p@.len() as int)[k] == e@[k]);
            }
            if e@.len() == p@.len() {
                assert(e@.subrange(0, p@.len() as int) =~= e@);
            }
        }
    }
    b
}

/// The text of `entries` with a newline after each.
pub open spec fn lines_text(entries: Seq<Seq<char>>) -> Seq<char>
    decreases entries.len(),
{
    if entries.len() == 0 {
        Seq::empty()
    } else {
        lines_text(entries.drop_last()) + entries.last().push('\n')
    }
}

/// Whether an entry can be stored as one line of the history file and read
/// back as it is: it is not blank, holds no newline and does not end with a
/// carriage return.
pub open spec fn storable(e: Seq<char>) -> bool {
    &&& !is_blank(e)
    &&& !e.contains('\n')
    &&& !(e.len() > 0 && e.last() == '\r')
}

proof fn lemma_lines_acc_concat(s: Seq<char>, t: Seq<char>)
    requires
        lines_acc(s).1.len() == 0,
    ensures
        lines_acc(s + t) == (lines_acc(s).0 + lines_acc(t).0, lines_acc(t).1),
    decreases t.len(),
{
    if t.len() == 0 {
        assert(s + t =~= s);
        assert(lines_acc(s).0 + lines_acc(t).0 =~= lines_acc(s).0);
        assert(lines_acc(s).1 =~= Seq::<char>::empty());
    } else {
        lemma_lines_acc_concat(s, t.drop_last());
        assert((s + t).drop_last() =~= s + t.drop_last());
        let (d, c) = lines_acc(t.drop_last());
        if t.last() == '\n' {
            assert(lines_acc(s).0 + d.push(strip_cr(c)) =~= (lines_acc(s).0 + d).push(strip_cr(c)));
        }
    }
}

proof fn lemma_lines_acc_no_newline(x: Seq<char>)
    requires
        !x.contains('\n'),
    ensures
        lines_acc(x) == (Seq::<Seq<char>>::empty(), x),
    decreases x.len(),
{
    if x.len() == 0 {
        assert(x =~= Seq::<char>::empty());
    } else {
        assert(!x.drop_last().contains('\n')) by {
            if x.drop_last().contains('\n') {
                let i = choose|i: int| 0 <= i < x.drop_last().len() && x.drop_last()[i] == '\n';
                assert(x[i] == '\n');
            }
        }
        lemma_lines_acc_no_newline(x.drop_last());
        assert(x.last() != '\n') by {
            assert(x[x.len() - 1] == x.last());
        }
        assert(x.drop_last().push(x.last()) =~= x);
    }
}

proof fn lemma_lines_acc_lines_text(entries: Seq<Seq<char>>)
    requires
        forall|i: int| 0 <= i < entries.len() ==> #[trigger] storable(entries[i]),
    ensures
        lines_acc(lines_text(entries)) == (entries, Seq::<char>::empty()),
    decreases entries.len(),
{
    if entries.len() == 0 {
        assert(lines_text(entries) =~= Seq::<char>::empty());
        assert(entries =~= Seq::<Seq<char>>::empty());
    } else {
        let init = entries.drop_last();
        let e = entries.last();
        assert(storable(entries[entries.len() - 1]));
        assert forall|i: int| 0 <= i < init.len() implies #[trigger] storable(init[i]) by {
            assert(init[i] == entries[i]);
        }
        lemma_lines_acc_lines_text(init);
        lemma_lines_acc_concat(lines_text(init), e.push('\n'));
        lemma_lines_acc_no_newline(e);
        assert(e.push('\n').drop_last() =~= e);
        assert(strip_cr(e) == e);
        assert(Seq::<Seq<char>>::empty().push(e) =~= seq![e]);
        assert(init + seq![e] =~= entries);
    }
}

proof fn lemma_history_file_lines_text(entries: Seq<Seq<char>>)
    requires
        entries.len() > 0,
    ensures
        history_file(entries) == lines_text(entries),
    decreases entries.len(),
{
    let init = entries.drop_last();
    if init.len() == 0 {
        assert(lines_text(init) =~= Seq::<char>::empty());
        assert(join_lines(entries) == entries[0]);
        assert(lines_text(entries) =~= history_file(entries));
    } else {
        lemma_history_file_lines_text(init);
        assert(lines_text(entries) =~= history_file(entries));
    }
}

proof fn lemma_filter_all(s: Seq<Seq<char>>)
    requires
        forall|i: int| 0 <= i < s.len() ==> !is_blank(#[trigger] s[i]),
    ensures
        s.filter(|l: Seq<char>| !is_blank(l)) == s,
    decreases s.len(),
{
    reveal_with_fuel(Seq::filter, 1);
    if s.len() > 0 {
        assert forall|i: int| 0 <= i < s.drop_last().len() implies !is_blank(#[trigger] s.drop_last()[i]) by {
            assert(s.drop_last()[i] == s[i]);
        }
        lemma_filter_all(s.drop_last());
        assert(!is_blank(s[s.len() - 1]));
        assert(s.drop_last().push(s.last()) =~= s);
    }
}

proof fn lemma_last_use_upto_at_least(log: Seq<Seq<char>>, e: Seq<char>, i: int, k: int)
    requires
        0 <= i < k <= log.len(),
        log[i] == e,
    ensures
        i <= last_use_upto(log, e, k) < k,
        log[last_use_upto(log, e, k)] == e,
    decreases k,
{
    if log[k - 1] != e {
        lemma_last_use_upto_at_least(log, e, i, k - 1);
    }
}

/// A command used on line `i` has its last use at or after `i`, on a line
/// that holds it; so distinct commands of the log have distinct last uses.
proof fn lemma_last_use_identifies(log: Seq<Seq<char>>, e: Seq<char>, i: int)
    requires
        0 <= i < log.len(),
        log[i] == e,
    ensures
        i <= last_use(log, e) < log.len(),
        log[last_use(log, e)] == e,
{
    lemma_last_use_upto_at_least(log, e, i, log.len() as int);
}

/// A line among the first `k` whose command completes `prefix` and ranks
/// above every other such command among them.
proof fn lemma_best_completion(log: Seq<Seq<char>>, prefix: Seq<char>, k: int) -> (b: int)
    requires
        0 <= k <= log.len(),
        exists|m: int| 0 <= m < k && completes(#[trigger] log[m], prefix),
    ensures
        0 <= b < k,
        completes(log[b], prefix),
        forall|m: int|
            0 <= m < k && completes(#[trigger] log[m], prefix) && log[m] != log[b] ==> ranks_above(
                log,
                log[b],
                log[m],
            ),
    decreases k,
{
    if exists|m: int| 0 <= m < k - 1 && completes(#[trigger] log[m], prefix) {
        let b0 = lemma_best_completion(log, prefix, k - 1);
        let last = k - 1;
        if completes(log[last], prefix) && log[last] != log[b0] {
            lemma_last_use_identifies(log, log[last], last);
            lemma_last_use_identifies(log, log[b0], b0);
            if ranks_above(log, log[last], log[b0]) {
                last
            } else {
                b0
            }
        } else {
            b0
        }
    } else {
        k - 1
    }
}

/// Storing a history and loading it back gives the same entries, when each
/// entry can be stored as a line of its own (see [`storable`]).
pub proof fn law_file_round_trip(entries: Seq<Seq<char>>)
    requires
        forall|i: int| 0 <= i < entries.len() ==> #[trigger] storable(entries[i]),
    ensures
        parse_history(history_file(entries)) == entries,
{
    reveal_with_fuel(Seq::filter, 1);
    if entries.len() == 0 {
        let f = history_file(entries);
        assert(join_lines(entries) =~= Seq::<char>::empty());
        assert(f =~= seq!['\n']);
        assert(f.drop_last() =~= Seq::<char>::empty());
        assert(lines_acc(f.drop_last()) == (Seq::<Seq<char>>::empty(), Seq::<char>::empty()));
        assert(strip_cr(Seq::<char>::empty()) =~= Seq::<char>::empty());
        let lines = file_lines(f);
        assert(lines =~= seq![Seq::<char>::empty()]);
        assert(lines.drop_last() =~= Seq::<Seq<char>>::empty());
        assert(is_blank(lines.last()));
        reveal_with_fuel(Seq::filter, 2);
        assert(lines.drop_last().filter(|l: Seq<char>| !is_blank(l)) =~= Seq::<Seq<char>>::empty());
        assert(parse_history(f) =~= entries);
    } else {
        lemma_history_file_lines_text(entries);
        lemma_lines_acc_lines_text(entries);
        assert forall|i: int| 0 <= i < entries.len() implies !is_blank(#[trigger] entries[i]) by {
            assert(storable(entries[i]));
        }
        lemma_filter_all(entries);
    }
}

/// The suggestion is determined: no two commands are both the suggestion
/// for a prefix.
pub proof fn law_suggestion_is_unique(log: Seq<Seq<char>>, prefix: Seq<char>, e: Seq<char>, f: Seq<char>)
    requires
        is_suggestion(log, prefix, e),
        is_suggestion(log, prefix, f),
    ensures
        e == f,
{
    if e != f {
        let i = choose|i: int| 0 <= i < log.len() && log[i] == f;
        let j = choose|j: int| 0 <= j < log.len() && log[j] == e;
        assert(ranks_above(log, e, log[i]));
        assert(ranks_above(log, f, log[j]));
    }
}

/// There is a suggestion exactly when there is something to suggest: the
/// prefix is not blank and some command of the log completes it.
pub proof fn law_suggestion_exists(log: Seq<Seq<char>>, prefix: Seq<char>)
    ensures
        !no_suggestion(log, prefix) <==> exists|e: Seq<char>| is_suggestion(log, prefix, e),
{
    if !no_suggestion(log, prefix) {
        let b = lemma_best_completion(log, prefix, log.len() as int);
        assert(log.contains(log[b]));
        assert(is_suggestion(log, prefix, log[b]));
    }
    if exists|e: Seq<char>| is_suggestion(log, prefix, e) {
        let e = choose|e: Seq<char>| is_suggestion(log, prefix, e);
        let i = choose|i: int| 0 <= i < log.len() && log[i] == e;
        assert(completes(log[i], prefix));
    }
}

/// The number of the first `k` lines of `log` that are `e`.
pub open spec fn uses_upto(log: Seq<Seq<char>>, e: Seq<char>, k: int) -> nat
    decreases k,
{
    if k <= 0 {
        0
    } else {
        uses_upto(log, e, k - 1) + (if log[k - 1] == e {
            1nat
        } else {
            0nat
        })
    }
}

proof fn lemma_recent_score(log: Seq<Seq<char>>, e: Seq<char>, k: int)
    requires
        k <= log.len(),
        forall|i: int| 0 <= i < log.len() && #[trigger] log[i] == e ==> log.len() - 1 - i < 1000,
    ensures
        score_upto(log, e, k) == 4 * uses_upto(log, e, k),
    decreases k,
{
    if k > 0 {
        lemma_recent_score(log, e, k - 1);
    }
}

/// Frequency beats recency: of two commands used only within the last 1000
/// lines, the one used more often ranks above the other, however recent
/// the other's last use.
pub proof fn law_frequency_beats_recency(log: Seq<Seq<char>>, e: Seq<char>, f: Seq<char>)
    requires
        forall|i: int| 0 <= i < log.len() && (#[trigger] log[i] == e || log[i] == f) ==> log.len() - 1 - i < 1000,
        uses_upto(log, e, log.len() as int) > uses_upto(log, f, log.len() as int),
    ensures
        ranks_above(log, e, f),
{
    lemma_recent_score(log, e, log.len() as int);
    lemma_recent_score(log, f, log.len() as int);
}

/// After a command is recorded, every non-blank proper prefix of it (as
/// trimmed) has a suggestion, and the command is the newest line.
pub proof fn law_recorded_command_is_a_candidate(log: Seq<Seq<char>>, command: Seq<char>, prefix: Seq<char>)
    requires
        trim(command).len() > 0,
        trim(prefix).len() > 0,
        prefix.is_prefix_of(trim(command)),
        prefix != trim(command),
    ensures
        append_spec(log, command).last() == trim(command),
        !no_suggestion(append_spec(log, command), prefix),
{
    let a = append_spec(log, command);
    let c = trim(command);
    let l = log.push(c);
    if l.len() > MAX_ENTRIES {
        assert(a.last() == l.last());
    }
    assert(a.last() == c);
    assert(completes(a[a.len() - 1], prefix));
}

/// Recording a command keeps the log within [`MAX_ENTRIES`] lines, and
/// leaves it as it was when the command is blank.
pub proof fn law_append_keeps_log_bounded(log: Seq<Seq<char>>, command: Seq<char>)
    requires
        log.len() <= MAX_ENTRIES,
    ensures
        append_spec(log, command).len() <= MAX_ENTRIES,
        trim(command).len() == 0 ==> append_spec(log, command) == log,
{
}

} // verus!
