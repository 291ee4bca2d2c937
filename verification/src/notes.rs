//! The daily note.
//!
//! One note per day, created the first time you look at that day. The only
//! rule with any real weight is carry-forward: unfinished work follows you
//! into tomorrow, finished work stays behind in the day you did it.
//!
//! Notes live in the app's own database, or in a folder of `YYYY-MM-DD.md`
//! files that is then the source of truth. Reading and writing either is the
//! application shell's job; what a note should contain is decided here.

use vstd::prelude::*;
use crate::db::Note;
use crate::text::{has_text, lemma_trim_empty, is_ws, is_whitespace, lead, leading_whitespace, lemma_lead, lemma_lead_is_first_non_ws, trim_start, texts, chars_of, string_of, less_than, text_lt, lemma_text_lt_transitive, lemma_text_lt_irreflexive};

verus! {

/// Heading above the work carried over into a new day.
pub const CARRIED_HEADING: &'static str = "Carried over";

/// Settings key holding the notes folder, when there is one.
pub const NOTES_DIR_KEY: &'static str = "notes_dir";

/// `s` begins with `p`.
pub open spec fn starts_with(s: Seq<char>, p: Seq<char>) -> bool {
    p.len() <= s.len() && s.take(p.len() as int) == p
}

/// A todo that is still open: `- [ ]` or `* [ ]`, however indented.
pub open spec fn is_unfinished_spec(line: Seq<char>) -> bool {
    starts_with(trim_start(line), seq!['-', ' ', '[', ' ', ']'])
        || starts_with(trim_start(line), seq!['*', ' ', '[', ' ', ']'])
}

/// ASCII lowercase of one character, as `to_ascii_lowercase` maps it.
pub open spec fn ascii_lower(c: char) -> char {
    if 'A' <= c <= 'Z' {
        ((c as u32) + 32) as char
    } else {
        c
    }
}

/// A todo that is done: `- [x]` or `* [x]` in either case, however indented.
pub open spec fn is_finished_spec(line: Seq<char>) -> bool {
    let t = trim_start(line).map_values(|c: char| ascii_lower(c));
    starts_with(t, seq!['-', ' ', '[', 'x', ']']) || starts_with(t, seq!['*', ' ', '[', 'x', ']'])
}

fn todo_mark(line: &Vec<char>) -> (r: Option<(char, char)>)
    ensures
        r matches Some(m) ==> {
            let t = trim_start(line@);
            &&& t.len() >= 5
            &&& m.0 == t[0] && t[1] == ' ' && t[2] == '[' && m.1 == t[3] && t[4] == ']'
        },
        r is None ==> {
            let t = trim_start(line@);
            t.len() < 5 || t[1] != ' ' || t[2] != '[' || t[4] != ']'
        },
{
    let k = leading_whitespace(line);
    proof { lemma_lead(line@); }
    if line.len() - k < 5 {
        return None;
    }
    if line[k + 1] == ' ' && line[k + 2] == '[' && line[k + 4] == ']' {
        Some((line[k], line[k + 3]))
    } else {
        None
    }
}

fn is_unfinished_todo(line: &Vec<char>) -> (r: bool)
    ensures
        r == is_unfinished_spec(line@),
{
    let ghost t = trim_start(line@);
    let m = todo_mark(line);
    let r = match m {
        Some((bullet, mark)) => (bullet == '-' || bullet == '*') && mark == ' ',
        None => false,
    };
    proof {
        if t.len() >= 5 {
            assert(t.take(5) =~= seq![t[0], t[1], t[2], t[3], t[4]]);
        }
    }
    r
}

fn is_finished_todo(line: &Vec<char>) -> (r: bool)
    ensures
        r == is_finished_spec(line@),
{
    let ghost t = trim_start(line@);
    let ghost lt = t.map_values(|c: char| ascii_lower(c));
    let m = todo_mark(line);
    let r = match m {
        Some((bullet, mark)) => (bullet == '-' || bullet == '*') && (mark == 'x' || mark == 'X'),
        None => false,
    };
    proof {
        if t.len() >= 5 {
            assert(lt.take(5) =~= seq![ascii_lower(t[0]), ascii_lower(t[1]), ascii_lower(t[2]), ascii_lower(t[3]), ascii_lower(t[4])]);
        }
    }
    r
}


/// A line without the `'\r'` of a `"\r\n"` ending.
pub open spec fn strip_cr(l: Seq<char>) -> Seq<char> {
    if l.len() > 0 && l.last() == '\r' {
        l.drop_last()
    } else {
        l
    }
}

/// The lines of `s` after the partial line `cur`: every `'\n'` ends a line
/// (dropping a `'\r'` just before it), and a final line needs no `'\n'`.
pub open spec fn split_lines(s: Seq<char>, cur: Seq<char>) -> Seq<Seq<char>>
    decreases s.len(),
{
    if s.len() == 0 {
        if cur.len() == 0 {
            Seq::empty()
        } else {
            seq![cur]
        }
    } else if s[0] == '\n' {
        seq![strip_cr(cur)] + split_lines(s.drop_first(), Seq::empty())
    } else {
        split_lines(s.drop_first(), cur.push(s[0]))
    }
}

/// The lines of a text, as `str::lines` yields them.
pub open spec fn lines_spec(s: Seq<char>) -> Seq<Seq<char>> {
    split_lines(s, Seq::empty())
}

fn strip_cr_exec(l: &mut Vec<char>)
    ensures
        final(l)@ == strip_cr(old(l)@),
{
    let n = l.len();
    if n > 0 && l[n - 1] == '\r' {
        l.pop();
        assert(l@ =~= old(l)@.drop_last());
    }
}

/// The lines of a text, as `str::lines` yields them.
pub fn lines(s: &Vec<char>) -> (r: Vec<Vec<char>>)
    ensures
        r@.map_values(|l: Vec<char>| l@) == lines_spec(s@),
{
    let mut done: Vec<Vec<char>> = Vec::new();
    let mut cur: Vec<char> = Vec::new();
    let mut i: usize = 0;
    assert(s@.skip(0) =~= s@);
    assert(done@.map_values(|l: Vec<char>| l@) =~= Seq::<Seq<char>>::empty());
    assert(cur@ =~= Seq::<char>::empty());
    while i < s.len()
        invariant
            i <= s@.len(),
            done@.map_values(|l: Vec<char>| l@) + split_lines(s@.skip(i as int), cur@) == lines_spec(s@),
        decreases s@.len() - i,
    {
        let c = s[i];
        let ghost rest = s@.skip(i as int);
        assert(rest.drop_first() =~= s@.skip(i + 1));
        assert(rest[0] == c);
        let ghost before = done@.map_values(|l: Vec<char>| l@);
        let ghost cv = cur@;
        if c == '\n' {
            let mut line = cur;
            strip_cr_exec(&mut line);
            let ghost lv = line@;
            done.push(line);
            cur = Vec::new();
            assert(done@.map_values(|l: Vec<char>| l@) =~= before.push(lv));
            assert(split_lines(rest, cv) == seq![lv] + split_lines(s@.skip(i + 1), Seq::empty()));
            assert(before + split_lines(rest, cv) =~= before.push(lv) + split_lines(s@.skip(i + 1), Seq::empty()));
        } else {
            cur.push(c);
            assert(split_lines(rest, cv) == split_lines(s@.skip(i + 1), cur@));
        }
        i = i + 1;
    }
    assert(s@.skip(i as int) =~= Seq::<char>::empty());
    if cur.len() > 0 {
        done.push(cur);
    }
    assert(done@.map_values(|l: Vec<char>| l@) =~= lines_spec(s@));
    done
}


/// The open todos among `ls`, in order.
pub open spec fn unfinished_lines(ls: Seq<Seq<char>>) -> Seq<Seq<char>>
    decreases ls.len(),
{
    if ls.len() == 0 {
        Seq::empty()
    } else {
        let rest = unfinished_lines(ls.drop_last());
        if is_unfinished_spec(ls.last()) {
            rest.push(ls.last())
        } else {
            rest
        }
    }
}

/// How many of `ls` are open todos.
pub open spec fn open_count(ls: Seq<Seq<char>>) -> nat {
    unfinished_lines(ls).len()
}

/// How many of `ls` are finished todos.
pub open spec fn done_count(ls: Seq<Seq<char>>) -> nat
    decreases ls.len(),
{
    if ls.len() == 0 {
        0
    } else {
        done_count(ls.drop_last()) + if is_finished_spec(ls.last()) {
            1nat
        } else {
            0nat
        }
    }
}

/// The lines joined by `sep`.
pub open spec fn join(ls: Seq<Seq<char>>, sep: Seq<char>) -> Seq<char>
    decreases ls.len(),
{
    if ls.len() == 0 {
        Seq::empty()
    } else if ls.len() == 1 {
        ls[0]
    } else {
        join(ls.drop_last(), sep) + sep + ls.last()
    }
}

/// Everything still open in `previous_body`: nothing when there is nothing
/// open, else the heading, the open lines verbatim, and a blank line.
pub open spec fn carry_over_spec(previous_body: Seq<char>) -> Seq<char> {
    let open = unfinished_lines(lines_spec(previous_body));
    if open.len() == 0 {
        Seq::empty()
    } else {
        CARRIED_HEADING@ + seq!['\n'] + join(open, seq!['\n']) + seq!['\n', '\n']
    }
}

fn unfinished_of(ls: &Vec<Vec<char>>) -> (r: Vec<Vec<char>>)
    ensures
        r@.map_values(|l: Vec<char>| l@) == unfinished_lines(ls@.map_values(|l: Vec<char>| l@)),
{
    let ghost all = ls@.map_values(|l: Vec<char>| l@);
    let mut out: Vec<Vec<char>> = Vec::new();
    let mut i: usize = 0;
    while i < ls.len()
        invariant
            i <= ls@.len(),
            all == ls@.map_values(|l: Vec<char>| l@),
            out@.map_values(|l: Vec<char>| l@) == unfinished_lines(all.take(i as int)),
        decreases ls@.len() - i,
    {
        assert(all.take(i + 1).drop_last() =~= all.take(i as int));
        assert(all.take(i + 1).last() == ls@[i as int]@);
        let ghost before = out@.map_values(|l: Vec<char>| l@);
        if is_unfinished_todo(&ls[i]) {
            out.push(ls[i].clone());
            assert(out@.map_values(|l: Vec<char>| l@) =~= before.push(ls@[i as int]@));
        }
        i = i + 1;
    }
    assert(all.take(i as int) =~= all);
    out
}

/// Everything still open from the previous day, kept verbatim so indentation
/// and any inline links survive the move.
pub fn carry_over(previous_body: &str) -> (r: String)
    ensures
        r@ == carry_over_spec(previous_body@),
{
    let body = chars_of(previous_body);
    let all = lines(&body);
    let open = unfinished_of(&all);
    let ghost ov = open@.map_values(|l: Vec<char>| l@);
    if open.len() == 0 {
        return String::new();
    }
    let mut out: Vec<char> = chars_of(CARRIED_HEADING);
    out.push('\n');
    let ghost head = out@;
    let mut i: usize = 0;
    while i < open.len()
        invariant
            i <= open@.len(),
            open@.len() > 0,
            ov == open@.map_values(|l: Vec<char>| l@),
            head == CARRIED_HEADING@ + seq!['\n'],
            out@ == head + join(ov.take(i as int), seq!['\n']),
        decreases open@.len() - i,
    {
        let ghost before = out@;
        assert(ov.take(i + 1).drop_last() =~= ov.take(i as int));
        if i > 0 {
            out.push('\n');
        }
        let mut line = open[i].clone();
        out.append(&mut line);
        if i == 0 {
            assert(ov.take(1) =~= seq![ov[0]]);
        }
        assert(out@ =~= head + join(ov.take(i + 1), seq!['\n']));
        i = i + 1;
    }
    assert(ov.take(i as int) =~= ov);
    out.push('\n');
    out.push('\n');
    assert(out@ =~= carry_over_spec(previous_body@));
    string_of(out.as_slice())
}

/// How many todos are done and how many are still open — the counts for the
/// footer and, later, the morning digest.
pub fn tally(body: &str) -> (r: (usize, usize))
    ensures
        r.0 == done_count(lines_spec(body@)),
        r.1 == open_count(lines_spec(body@)),
{
    let chars = chars_of(body);
    let all = lines(&chars);
    let ghost lv = all@.map_values(|l: Vec<char>| l@);
    let mut done: usize = 0;
    let mut open: usize = 0;
    let mut i: usize = 0;
    while i < all.len()
        invariant
            i <= all@.len(),
            lv == all@.map_values(|l: Vec<char>| l@),
            done == done_count(lv.take(i as int)),
            open == open_count(lv.take(i as int)),
            done <= i,
            open <= i,
        decreases all@.len() - i,
    {
        assert(lv.take(i + 1).drop_last() =~= lv.take(i as int));
        assert(lv.take(i + 1).last() == all@[i as int]@);
        if is_finished_todo(&all[i]) {
            done = done + 1;
        }
        if is_unfinished_todo(&all[i]) {
            open = open + 1;
        }
        i = i + 1;
    }
    assert(lv.take(i as int) =~= lv);
    (done, open)
}


// ---------------------------------------------------------------------------
// Where notes live
// ---------------------------------------------------------------------------

/// Where notes are kept.
pub enum Store {
    /// The app's own database. The default: nothing to configure.
    Db,
    /// A folder of `YYYY-MM-DD.md` files, which is then the source of truth.
    Folder(String),
}

/// Every character is whitespace (`trim()` leaves nothing).
pub open spec fn all_ws(s: Seq<char>) -> bool {
    forall|i: int| 0 <= i < s.len() ==> is_ws(#[trigger] s[i])
}

fn blank(s: &str) -> (r: bool)
    ensures
        r == all_ws(s@),
{
    let v = chars_of(s);
    let mut i: usize = 0;
    while i < v.len()
        invariant
            i <= v@.len(),
            v@ == s@,
            forall|j: int| 0 <= j < i ==> is_ws(#[trigger] v@[j]),
        decreases v@.len() - i,
    {
        if !is_whitespace(v[i]) {
            return false;
        }
        i = i + 1;
    }
    true
}

/// Where notes live, given the stored notes-folder setting: a folder when the
/// setting holds anything but whitespace, otherwise the database.
pub fn store_for(notes_dir: Option<String>) -> (r: Store)
    ensures
        r matches Store::Folder(d) ==> notes_dir == Some(d) && has_text(d@),
        r is Db ==> !(notes_dir matches Some(d) && has_text(d@)),
{
    match notes_dir {
        Some(dir) => {
            proof { lemma_trim_empty(dir@); }
            if blank(dir.as_str()) {
                Store::Db
            } else {
                Store::Folder(dir)
            }
        },
        None => Store::Db,
    }
}

/// `.md`
pub open spec fn md_extension() -> Seq<char> {
    seq!['.', 'm', 'd']
}

/// The file name of a day's note.
pub fn day_file(day: &str) -> (r: String)
    ensures
        r@ == day@ + md_extension(),
{
    let mut s = String::from_str(day);
    s.append(".md");
    proof { reveal_strlit(".md"); }
    assert(".md"@ =~= md_extension());
    s
}

/// `YYYY-MM-DD`: ten characters, digits but for the dashes at 4 and 7.
pub open spec fn looks_like_a_day_spec(s: Seq<char>) -> bool {
    &&& s.len() == 10
    &&& forall|i: int| #![trigger s[i]] 0 <= i < 10 ==> if i == 4 || i == 7 {
        s[i] == '-'
    } else {
        '0' <= s[i] <= '9'
    }
}

fn chars_look_like_a_day(b: &Vec<char>) -> (r: bool)
    ensures
        r == looks_like_a_day_spec(b@),
{
    if b.len() != 10 {
        return false;
    }
    let mut i: usize = 0;
    while i < 10
        invariant
            i <= 10,
            b@.len() == 10,
            forall|j: int| #![trigger b@[j]] 0 <= j < i ==> if j == 4 || j == 7 {
                b@[j] == '-'
            } else {
                '0' <= b@[j] <= '9'
            },
        decreases 10 - i,
    {
        let c = b[i];
        let ok = if i == 4 || i == 7 {
            c == '-'
        } else {
            '0' <= c && c <= '9'
        };
        if !ok {
            return false;
        }
        i = i + 1;
    }
    true
}

/// Whether a file stem names a day.
pub fn looks_like_a_day(stem: &str) -> (r: bool)
    ensures
        r == looks_like_a_day_spec(stem@),
{
    let b = chars_of(stem);
    chars_look_like_a_day(&b)
}

/// The day a file name holds the note of, if it is a dated note at all.
pub open spec fn day_of_file_spec(name: Seq<char>) -> Option<Seq<char>> {
    if name.len() == 13 && name.skip(10) == md_extension() && looks_like_a_day_spec(name.take(10)) {
        Some(name.take(10))
    } else {
        None
    }
}

/// The day a file name holds the note of: `YYYY-MM-DD.md` gives `YYYY-MM-DD`,
/// anything else (other names, other extensions) nothing.
pub fn day_of_file(name: &str) -> (r: Option<String>)
    ensures
        r matches Some(d) ==> day_of_file_spec(name@) == Some(d@),
        r is None ==> day_of_file_spec(name@) is None,
{
    let v = chars_of(name);
    if v.len() != 13 || v[10] != '.' || v[11] != 'm' || v[12] != 'd' {
        proof {
            if v@.len() == 13 {
                assert(v@.skip(10) =~= seq![v@[10], v@[11], v@[12]]);
            }
        }
        return None;
    }
    assert(v@.skip(10) =~= md_extension());
    let mut stem = v.clone();
    stem.truncate(10);
    assert(stem@ =~= v@.take(10));
    if chars_look_like_a_day(&stem) {
        Some(string_of(stem.as_slice()))
    } else {
        None
    }
}

/// The days named among `names`, in order.
pub open spec fn dated(names: Seq<String>) -> Seq<Seq<char>>
    decreases names.len(),
{
    if names.len() == 0 {
        Seq::empty()
    } else {
        let rest = dated(names.drop_last());
        match day_of_file_spec(names.last()@) {
            Some(d) => rest.push(d),
            None => rest,
        }
    }
}

/// Ascending: no later entry comes before an earlier one.
pub open spec fn ascending(s: Seq<Seq<char>>) -> bool {
    forall|i: int, j: int| 0 <= i < j < s.len() ==> !text_lt(#[trigger] s[j], #[trigger] s[i])
}

fn insert_sorted(days: &mut Vec<String>, d: String)
    requires
        ascending(texts(old(days)@)),
    ensures
        ascending(texts(final(days)@)),
        texts(final(days)@).to_multiset() == texts(old(days)@).to_multiset().insert(d@),
{
    let ghost before = texts(days@);
    let mut p: usize = 0;
    while p < days.len() && !less_than(d.as_str(), days[p].as_str())
        invariant
            p <= days@.len(),
            before == texts(days@),
            forall|k: int| 0 <= k < p ==> !text_lt(d@, #[trigger] days@[k]@),
        decreases days@.len() - p,
    {
        p = p + 1;
    }
    let ghost dv = d@;
    days.insert(p, d);
    proof {
        let after = texts(days@);
        assert(after =~= before.insert(p as int, dv));
        vstd::seq_lib::to_multiset_insert(before, p as int, dv);
        assert forall|i: int, j: int| 0 <= i < j < after.len() implies !text_lt(#[trigger] after[j], #[trigger] after[i]) by {
            if i < p && j == p {
                assert(after[i] == before[i]);
            } else if i == p && j > p {
                assert(after[j] == before[j - 1]);
                assert(text_lt(dv, before[p as int]));
                if text_lt(before[j - 1], dv) {
                    if j - 1 > p {
                        lemma_text_lt_transitive(before[j - 1], dv, before[p as int]);
                    } else {
                        lemma_text_lt_transitive(dv, before[p as int], dv);
                        lemma_text_lt_irreflexive(dv);
                    }
                }
            } else if i < p && j > p {
                assert(after[i] == before[i]);
                assert(after[j] == before[j - 1]);
            } else if j < p {
                assert(after[i] == before[i]);
                assert(after[j] == before[j]);
            } else {
                assert(after[i] == before[i - 1]);
                assert(after[j] == before[j - 1]);
            }
        }
    }
}

/// Every day present among the folder's file names, oldest first. Files that
/// aren't dated notes are ignored, so the folder can hold anything else.
pub fn days_in(names: &Vec<String>) -> (r: Vec<String>)
    ensures
        ascending(texts(r@)),
        texts(r@).to_multiset() == dated(names@).to_multiset(),
{
    let mut days: Vec<String> = Vec::new();
    let mut i: usize = 0;
    assert(texts(days@) =~= dated(names@.take(0)));
    while i < names.len()
        invariant
            i <= names@.len(),
            ascending(texts(days@)),
            texts(days@).to_multiset() == dated(names@.take(i as int)).to_multiset(),
        decreases names@.len() - i,
    {
        assert(names@.take(i + 1).drop_last() =~= names@.take(i as int));
        match day_of_file(names[i].as_str()) {
            Some(d) => {
                let ghost dv = d@;
                insert_sorted(&mut days, d);
                proof { vstd::seq_lib::to_multiset_build(dated(names@.take(i as int)), dv); }
            },
            None => {},
        }
        i = i + 1;
    }
    assert(names@.take(i as int) =~= names@);
    days
}

/// The notes of `stored`, in order, whose day's file (`day_file`) is not
/// among the file names `folder`.
pub open spec fn adoptable(stored: Seq<Note>, folder: Seq<Seq<char>>) -> Seq<Note>
    decreases stored.len(),
{
    if stored.len() == 0 {
        seq![]
    } else {
        let rest = adoptable(stored.drop_first(), folder);
        if folder.contains(stored[0].day@ + md_extension()) {
            rest
        } else {
            seq![stored[0]] + rest
        }
    }
}

/// Whether `name` is among `names`.
fn holds_name(names: &Vec<String>, name: &String) -> (r: bool)
    ensures
        r == texts(names@).contains(name@),
{
    let mut j: usize = 0;
    while j < names.len()
        invariant
            j <= names@.len(),
            forall|k: int| 0 <= k < j ==> names@[k]@ != name@,
        decreases names@.len() - j,
    {
        if names[j] == *name {
            assert(texts(names@)[j as int] == name@);
            return true;
        }
        j = j + 1;
    }
    assert forall|k: int| 0 <= k < texts(names@).len() implies texts(names@)[k] != name@ by {
        assert(texts(names@)[k] == names@[k]@);
    }
    false
}

/// What adopting a folder copies into it: the stored notes whose file is not
/// already among the folder's file names `folder_names`, in the order given.
/// A file already there keeps its text, whatever its name; the stored copy of
/// that day is left out.
pub fn to_adopt(stored: Vec<Note>, folder_names: &Vec<String>) -> (r: Vec<Note>)
    ensures
        r@ == adoptable(stored@, texts(folder_names@)),
{
    let ghost all = stored@;
    let ghost folder = texts(folder_names@);
    let mut rest = stored;
    let mut r: Vec<Note> = Vec::new();
    while rest.len() > 0
        invariant
            r@ + adoptable(rest@, folder) == adoptable(all, folder),
            folder == texts(folder_names@),
        decreases rest@.len(),
    {
        let ghost before = rest@;
        let n = rest.remove(0);
        assert(before.drop_first() =~= rest@);
        let file = day_file(n.day.as_str());
        if !holds_name(folder_names, &file) {
            proof {
                assert(r@.push(n) + adoptable(rest@, folder) =~= r@ + (seq![n] + adoptable(rest@, folder)));
            }
            r.push(n);
        }
    }
    assert(r@ + adoptable(rest@, folder) =~= r@);
    r
}


/// `p` is the latest of `days` before `day`.
pub open spec fn is_latest_before(days: Seq<Seq<char>>, day: Seq<char>, p: Seq<char>) -> bool {
    &&& days.contains(p)
    &&& text_lt(p, day)
    &&& forall|i: int| 0 <= i < days.len() && text_lt(#[trigger] days[i], day) ==> !text_lt(p, days[i])
}

/// `n` is the earliest of `days` after `day`.
pub open spec fn is_earliest_after(days: Seq<Seq<char>>, day: Seq<char>, n: Seq<char>) -> bool {
    &&& days.contains(n)
    &&& text_lt(day, n)
    &&& forall|i: int| 0 <= i < days.len() && text_lt(day, #[trigger] days[i]) ==> !text_lt(days[i], n)
}

/// The nearest written days either side of `day`, for walking through
/// history: the latest day before it and the earliest day after it.
pub fn neighbours_in(days: &Vec<String>, day: &str) -> (r: (Option<String>, Option<String>))
    ensures
        r.0 matches Some(p) ==> is_latest_before(texts(days@), day@, p@),
        r.0 is None ==> forall|i: int| 0 <= i < days@.len() ==> !text_lt(#[trigger] days@[i]@, day@),
        r.1 matches Some(n) ==> is_earliest_after(texts(days@), day@, n@),
        r.1 is None ==> forall|i: int| 0 <= i < days@.len() ==> !text_lt(day@, #[trigger] days@[i]@),
{
    let ghost ds = texts(days@);
    let mut prev: Option<usize> = None;
    let mut next: Option<usize> = None;
    let mut i: usize = 0;
    while i < days.len()
        invariant
            i <= days@.len(),
            ds == texts(days@),
            prev matches Some(p) ==> p < i && text_lt(ds[p as int], day@)
                && forall|k: int| 0 <= k < i && text_lt(#[trigger] ds[k], day@) ==> !text_lt(ds[p as int], ds[k]),
            prev is None ==> forall|k: int| 0 <= k < i ==> !text_lt(#[trigger] ds[k], day@),
            next matches Some(n) ==> n < i && text_lt(day@, ds[n as int])
                && forall|k: int| 0 <= k < i && text_lt(day@, #[trigger] ds[k]) ==> !text_lt(ds[k], ds[n as int]),
            next is None ==> forall|k: int| 0 <= k < i ==> !text_lt(day@, #[trigger] ds[k]),
        decreases days@.len() - i,
    {
        let d = days[i].as_str();
        if less_than(d, day) {
            let better = match prev {
                Some(p) => less_than(days[p].as_str(), d),
                None => true,
            };
            if better {
                proof {
                    assert forall|k: int| 0 <= k < i + 1 && text_lt(#[trigger] ds[k], day@) implies !text_lt(ds[i as int], ds[k]) by {
                        if k == i {
                            lemma_text_lt_irreflexive(ds[k]);
                        } else if let Some(p) = prev {
                            if text_lt(ds[i as int], ds[k]) {
                                lemma_text_lt_transitive(ds[p as int], ds[i as int], ds[k]);
                            }
                        }
                    }
                }
                prev = Some(i);
            }
        }
        if less_than(day, d) {
            let better = match next {
                Some(n) => less_than(d, days[n].as_str()),
                None => true,
            };
            if better {
                proof {
                    assert forall|k: int| 0 <= k < i + 1 && text_lt(day@, #[trigger] ds[k]) implies !text_lt(ds[k], ds[i as int]) by {
                        if k == i {
                            lemma_text_lt_irreflexive(ds[k]);
                        } else if let Some(n) = next {
                            if text_lt(ds[k], ds[i as int]) {
                                lemma_text_lt_transitive(ds[k], ds[i as int], ds[n as int]);
                            }
                        }
                    }
                }
                next = Some(i);
            }
        }
        i = i + 1;
    }
    let before = match prev {
        Some(p) => {
            assert(ds[p as int] == days@[p as int]@);
            assert(ds.contains(ds[p as int]));
            Some(days[p].clone())
        },
        None => {
            assert forall|i: int| 0 <= i < days@.len() implies !text_lt(#[trigger] days@[i]@, day@) by {
                assert(ds[i] == days@[i]@);
            }
            None
        },
    };
    let after = match next {
        Some(n) => {
            assert(ds.contains(ds[n as int]));
            Some(days[n].clone())
        },
        None => {
            assert forall|i: int| 0 <= i < days@.len() implies !text_lt(day@, #[trigger] days@[i]@) by {
                assert(ds[i] == days@[i]@);
            }
            None
        },
    };
    (before, after)
}

/// The most recent day written before `day` — where carried-over work comes
/// from. Not simply "yesterday": a Monday should pick up Friday's loose ends.
pub fn previous_in(days: &Vec<String>, day: &str) -> (r: Option<String>)
    ensures
        r matches Some(p) ==> is_latest_before(texts(days@), day@, p@),
        r is None ==> forall|i: int| 0 <= i < days@.len() ==> !text_lt(#[trigger] days@[i]@, day@),
{
    neighbours_in(days, day).0
}

/// What opening a day comes to.
pub enum Opening {
    /// The day has been written: it is shown as it is.
    Existing(Note),
    /// The day is new: it is created with this body.
    Fresh(String),
}

/// The body a never-written day starts with. Only today inherits: opening
/// an old empty day should show what that day actually looked like, not
/// today's leftovers.
pub open spec fn fresh_body(day: Seq<char>, today: Seq<char>, previous: Option<Note>) -> Seq<char> {
    if day == today {
        match previous {
            Some(p) => carry_over_spec(p.body@),
            None => Seq::empty(),
        }
    } else {
        Seq::empty()
    }
}

/// Opens a day: `existing` is what is stored for it, `today` is today's
/// date, and `previous` the latest day written before it (only consulted
/// when the day is new and is today).
pub fn open_day(existing: Option<Note>, day: &str, today: &str, previous: Option<Note>) -> (r: Opening)
    ensures
        existing matches Some(n) ==> r == Opening::Existing(n),
        existing is None ==> (r matches Opening::Fresh(b) && b@ == fresh_body(day@, today@, previous)),
{
    match existing {
        Some(n) => Opening::Existing(n),
        None => {
            let same = String::from_str(day) == String::from_str(today);
            if same {
                match previous {
                    Some(p) => Opening::Fresh(carry_over(p.body.as_str())),
                    None => Opening::Fresh(String::new()),
                }
            } else {
                Opening::Fresh(String::new())
            }
        },
    }
}



// ---------------------------------------------------------------------------
// What carrying over keeps
// ---------------------------------------------------------------------------

/// No line break in `s`.
pub open spec fn one_line(s: Seq<char>) -> bool {
    forall|i: int| 0 <= i < s.len() ==> s[i] != '\n'
}

proof fn lemma_split_chunk(a: Seq<char>, s: Seq<char>, cur: Seq<char>)
    requires
        one_line(a),
    ensures
        split_lines(a + s, cur) == split_lines(s, cur + a),
    decreases a.len(),
{
    if a.len() == 0 {
        assert(a + s =~= s);
        assert(cur + a =~= cur);
    } else {
        assert((a + s)[0] == a[0]);
        assert((a + s).drop_first() =~= a.drop_first() + s);
        assert(cur.push(a[0]) + a.drop_first() =~= cur + a);
        lemma_split_chunk(a.drop_first(), s, cur.push(a[0]));
    }
}

proof fn lemma_split_newline(s: Seq<char>, cur: Seq<char>)
    ensures
        split_lines(seq!['\n'] + s, cur) == seq![strip_cr(cur)] + split_lines(s, Seq::empty()),
{
    assert((seq!['\n'] + s).drop_first() =~= s);
}

proof fn lemma_lines_are_single(s: Seq<char>, cur: Seq<char>)
    requires
        one_line(cur),
    ensures
        forall|i: int| 0 <= i < split_lines(s, cur).len() ==> one_line(#[trigger] split_lines(s, cur)[i]),
    decreases s.len(),
{
    if s.len() == 0 {
        if cur.len() > 0 {
            assert(split_lines(s, cur) =~= seq![cur]);
        }
    } else if s[0] == '\n' {
        lemma_lines_are_single(s.drop_first(), Seq::empty());
        let rest = split_lines(s.drop_first(), Seq::empty());
        assert forall|i: int| 0 <= i < split_lines(s, cur).len() implies one_line(#[trigger] split_lines(s, cur)[i]) by {
            if i > 0 {
                assert(split_lines(s, cur)[i] == rest[i - 1]);
            } else {
                assert(one_line(strip_cr(cur)));
            }
        }
    } else {
        assert(one_line(cur.push(s[0])));
        lemma_lines_are_single(s.drop_first(), cur.push(s[0]));
        assert(split_lines(s, cur) == split_lines(s.drop_first(), cur.push(s[0])));
    }
}

proof fn lemma_unfinished_from(ls: Seq<Seq<char>>)
    ensures
        forall|i: int| 0 <= i < unfinished_lines(ls).len() ==> is_unfinished_spec(#[trigger] unfinished_lines(ls)[i])
            && ls.contains(unfinished_lines(ls)[i]),
    decreases ls.len(),
{
    if ls.len() > 0 {
        lemma_unfinished_from(ls.drop_last());
        let rest = unfinished_lines(ls.drop_last());
        assert forall|i: int| 0 <= i < unfinished_lines(ls).len() implies is_unfinished_spec(#[trigger] unfinished_lines(ls)[i])
            && ls.contains(unfinished_lines(ls)[i]) by {
            if i < rest.len() {
                assert(unfinished_lines(ls)[i] == rest[i]);
                assert(is_unfinished_spec(rest[i]) && ls.drop_last().contains(rest[i]));
                let j = choose|j: int| 0 <= j < ls.drop_last().len() && ls.drop_last()[j] == rest[i];
                assert(ls[j] == rest[i]);
            } else {
                assert(ls[ls.len() - 1] == ls.last());
            }
        }
    }
}

/// The lines as `str::lines` reads them after a carry's text: each carried
/// line (its `"\r"` dropped at the line break) and then the blank line.
proof fn lemma_split_join(u: Seq<Seq<char>>, t: Seq<char>, cur: Seq<char>)
    requires
        u.len() > 0,
        forall|i: int| 0 <= i < u.len() ==> one_line(#[trigger] u[i]),
    ensures
        split_lines(join(u, seq!['\n']) + seq!['\n'] + t, cur)
            == seq![strip_cr(cur + u[0])] + u.drop_first().map_values(|l: Seq<char>| strip_cr(l)) + split_lines(t, Seq::empty()),
    decreases u.len(),
{
    let nl = seq!['\n'];
    if u.len() == 1 {
        assert(join(u, nl) == u[0]);
        assert(u[0] + nl + t =~= u[0] + (nl + t));
        lemma_split_chunk(u[0], nl + t, cur);
        lemma_split_newline(t, cur + u[0]);
        assert(u.drop_first().map_values(|l: Seq<char>| strip_cr(l)) =~= Seq::<Seq<char>>::empty());
        assert(seq![strip_cr(cur + u[0])] + Seq::<Seq<char>>::empty() =~= seq![strip_cr(cur + u[0])]);
    } else {
        let pre = u.drop_last();
        assert(join(u, nl) == join(pre, nl) + nl + u.last());
        assert(join(u, nl) + nl + t =~= join(pre, nl) + nl + (u.last() + nl + t));
        assert forall|i: int| 0 <= i < pre.len() implies one_line(#[trigger] pre[i]) by {
            assert(pre[i] == u[i]);
        }
        lemma_split_join(pre, u.last() + nl + t, cur);
        assert(u.last() + nl + t =~= u.last() + (nl + t));
        lemma_split_chunk(u.last(), nl + t, Seq::empty());
        lemma_split_newline(t, Seq::<char>::empty() + u.last());
        assert(Seq::<char>::empty() + u.last() =~= u.last());
        assert(pre[0] == u[0]);
        assert(u.drop_first().map_values(|l: Seq<char>| strip_cr(l))
            =~= pre.drop_first().map_values(|l: Seq<char>| strip_cr(l)).push(strip_cr(u.last())));
    }
}

proof fn lemma_counts_append(a: Seq<Seq<char>>, b: Seq<Seq<char>>)
    ensures
        done_count(a + b) == done_count(a) + done_count(b),
        unfinished_lines(a + b) == unfinished_lines(a) + unfinished_lines(b),
    decreases b.len(),
{
    if b.len() == 0 {
        assert(a + b =~= a);
        assert(unfinished_lines(a) + unfinished_lines(b) =~= unfinished_lines(a));
    } else {
        lemma_counts_append(a, b.drop_last());
        assert((a + b).drop_last() =~= a + b.drop_last());
        assert((a + b).last() == b.last());
        assert(unfinished_lines(a) + unfinished_lines(b.drop_last()).push(b.last())
            =~= (unfinished_lines(a) + unfinished_lines(b.drop_last())).push(b.last()));
    }
}

proof fn lemma_lead_drop_last(l: Seq<char>)
    requires
        l.len() > 0,
        l.last() == '\r',
        lead(l) < l.len(),
    ensures
        lead(l.drop_last()) == lead(l),
    decreases l.len(),
{
    if is_ws(l[0]) {
        lemma_lead(l.drop_first());
        assert(l.len() >= 2);
        assert(l.drop_last().drop_first() =~= l.drop_first().drop_last());
        assert(l.drop_last()[0] == l[0]);
        lemma_lead_drop_last(l.drop_first());
    } else {
        assert(l.drop_last()[0] == l[0]);
    }
}

proof fn lemma_strip_cr_keeps_open(l: Seq<char>)
    requires
        is_unfinished_spec(l),
    ensures
        is_unfinished_spec(strip_cr(l)),
        !is_finished_spec(strip_cr(l)),
{
    lemma_lead(l);
    let t = trim_start(l);
    let m = strip_cr(l);
    if l.len() > 0 && l.last() == '\r' {
        assert(is_ws('\r'));
        assert(lead(l) < l.len() - 1) by {
            if lead(l) == l.len() - 1 {
                assert(t.len() == 1);
            }
        }
        lemma_lead_drop_last(l);
        lemma_lead(m);
        assert(trim_start(m) =~= t.drop_last());
    }
    lemma_lead(m);
    let tm = trim_start(m);
    assert(tm.len() >= 5);
    assert(tm.take(5) =~= t.take(5));
    assert(t.take(5)[3] == ' ');
    let lt = tm.map_values(|c: char| ascii_lower(c));
    assert(lt.take(5)[3] == ' ');
}

proof fn lemma_heading_is_not_a_todo()
    ensures
        !is_unfinished_spec(CARRIED_HEADING@),
        !is_finished_spec(CARRIED_HEADING@),
        strip_cr(CARRIED_HEADING@) == CARRIED_HEADING@,
        one_line(CARRIED_HEADING@),
{
    reveal_strlit("Carried over");
    let h = CARRIED_HEADING@;
    lemma_lead(h);
    assert(!is_ws(h[0]));
    assert(trim_start(h) == h);
    assert(h.take(5)[0] == 'C');
    let lh = h.map_values(|c: char| ascii_lower(c));
    assert(lh.take(5)[0] == ascii_lower('C'));
}

proof fn lemma_blank_is_not_a_todo()
    ensures
        !is_unfinished_spec(Seq::<char>::empty()),
        !is_finished_spec(Seq::<char>::empty()),
{
    assert(trim_start(Seq::<char>::empty()) == Seq::<char>::empty());
}

/// The lines of a carry, as `str::lines` reads them back: the heading, each
/// open line (its `"\r"` dropped at the line break), and the blank line.
proof fn lemma_carried_lines(previous_body: Seq<char>)
    ensures
        ({
            let u = unfinished_lines(lines_spec(previous_body));
            let mapped = u.map_values(|l: Seq<char>| strip_cr(l));
            &&& u.len() == 0 ==> carry_over_spec(previous_body) == Seq::<char>::empty()
            &&& u.len() > 0 ==> lines_spec(carry_over_spec(previous_body))
                == seq![CARRIED_HEADING@] + mapped + seq![Seq::<char>::empty()]
            &&& forall|i: int| 0 <= i < mapped.len() ==> is_unfinished_spec(#[trigger] mapped[i]) && !is_finished_spec(mapped[i])
        }),
{
    let u = unfinished_lines(lines_spec(previous_body));
    let nl = seq!['\n'];
    let c = carry_over_spec(previous_body);
    let mapped = u.map_values(|l: Seq<char>| strip_cr(l));
    lemma_unfinished_from(lines_spec(previous_body));
    assert forall|i: int| 0 <= i < mapped.len() implies is_unfinished_spec(#[trigger] mapped[i]) && !is_finished_spec(mapped[i]) by {
        assert(is_unfinished_spec(u[i]));
        lemma_strip_cr_keeps_open(u[i]);
    }
    if u.len() > 0 {
        let h = CARRIED_HEADING@;
        lemma_heading_is_not_a_todo();
        lemma_lines_are_single(previous_body, Seq::empty());
        assert forall|i: int| 0 <= i < u.len() implies one_line(#[trigger] u[i]) by {
            assert(is_unfinished_spec(unfinished_lines(lines_spec(previous_body))[i]));
            assert(lines_spec(previous_body).contains(u[i]));
            let j = choose|j: int| 0 <= j < lines_spec(previous_body).len() && lines_spec(previous_body)[j] == u[i];
            assert(one_line(lines_spec(previous_body)[j]));
        }
        assert(c =~= h + (nl + (join(u, nl) + nl + nl)));
        lemma_split_chunk(h, nl + (join(u, nl) + nl + nl), Seq::empty());
        assert(Seq::<char>::empty() + h =~= h);
        lemma_split_newline(join(u, nl) + nl + nl, h);
        lemma_split_join(u, nl, Seq::empty());
        assert(Seq::<char>::empty() + u[0] =~= u[0]);
        lemma_split_newline(Seq::empty(), Seq::empty());
        assert(split_lines(Seq::<char>::empty(), Seq::empty()) =~= Seq::<Seq<char>>::empty());
        assert(nl + Seq::<char>::empty() =~= nl);
        assert(seq![strip_cr(u[0])] + u.drop_first().map_values(|l: Seq<char>| strip_cr(l)) =~= mapped);
        assert(strip_cr(Seq::<char>::empty()) =~= Seq::<char>::empty());
        assert(lines_spec(c) =~= seq![h] + mapped + seq![Seq::<char>::empty()]);
    }
}

/// The counts of a carry: the heading and the blank line are no todos.
proof fn lemma_carry_counts(mapped: Seq<Seq<char>>)
    requires
        forall|i: int| 0 <= i < mapped.len() ==> is_unfinished_spec(#[trigger] mapped[i]) && !is_finished_spec(mapped[i]),
    ensures
        done_count(seq![CARRIED_HEADING@] + mapped + seq![Seq::<char>::empty()]) == 0,
        unfinished_lines(seq![CARRIED_HEADING@] + mapped + seq![Seq::<char>::empty()]) == mapped,
{
    let h = CARRIED_HEADING@;
    let blank = seq![Seq::<char>::empty()];
    lemma_heading_is_not_a_todo();
    lemma_blank_is_not_a_todo();
    lemma_all_open(mapped);
    lemma_counts_append(seq![h], mapped);
    lemma_counts_append(seq![h] + mapped, blank);
    lemma_counts_one(h);
    lemma_counts_one(Seq::<char>::empty());
    assert(unfinished_lines(seq![h]) =~= Seq::<Seq<char>>::empty()) by {
        assert(seq![h].drop_last() =~= Seq::<Seq<char>>::empty());
        assert(seq![h].last() == h);
    }
    assert(unfinished_lines(blank) =~= Seq::<Seq<char>>::empty()) by {
        assert(blank.drop_last() =~= Seq::<Seq<char>>::empty());
        assert(blank.last() == Seq::<char>::empty());
    }
    assert(Seq::<Seq<char>>::empty() + mapped + Seq::<Seq<char>>::empty() =~= mapped);
}

/// Carrying over keeps every open todo and nothing finished: the new day
/// starts with exactly as many open todos as the day before left, and none
/// done.
pub proof fn lemma_carry_keeps_open_work(previous_body: Seq<char>)
    ensures
        done_count(lines_spec(carry_over_spec(previous_body))) == 0,
        open_count(lines_spec(carry_over_spec(previous_body))) == open_count(lines_spec(previous_body)),
{
    let u = unfinished_lines(lines_spec(previous_body));
    lemma_carried_lines(previous_body);
    if u.len() == 0 {
        assert(lines_spec(Seq::<char>::empty()) =~= Seq::<Seq<char>>::empty());
        assert(unfinished_lines(Seq::<Seq<char>>::empty()) =~= Seq::<Seq<char>>::empty());
    } else {
        lemma_carry_counts(u.map_values(|l: Seq<char>| strip_cr(l)));
    }
}

/// A line ending in a carriage return (one that a line break after it would
/// drop).
pub open spec fn ends_in_cr(l: Seq<char>) -> bool {
    l.len() > 0 && l.last() == '\r'
}

/// Carrying over twice is carrying over once: the heading is no todo and the
/// carried lines are carried again as they are. Only a carried line that
/// itself ends in a carriage return changes, as the line break after it
/// drops that character on the second pass.
pub proof fn lemma_carry_is_idempotent(previous_body: Seq<char>)
    requires
        forall|i: int| 0 <= i < unfinished_lines(lines_spec(previous_body)).len()
            ==> !ends_in_cr(#[trigger] unfinished_lines(lines_spec(previous_body))[i]),
    ensures
        carry_over_spec(carry_over_spec(previous_body)) == carry_over_spec(previous_body),
{
    let u = unfinished_lines(lines_spec(previous_body));
    lemma_carried_lines(previous_body);
    if u.len() == 0 {
        assert(lines_spec(Seq::<char>::empty()) =~= Seq::<Seq<char>>::empty());
        assert(unfinished_lines(Seq::<Seq<char>>::empty()) =~= Seq::<Seq<char>>::empty());
    } else {
        let mapped = u.map_values(|l: Seq<char>| strip_cr(l));
        assert(mapped =~= u) by {
            assert forall|i: int| 0 <= i < u.len() implies mapped[i] == u[i] by {
                assert(!ends_in_cr(u[i]));
            }
        }
        lemma_carry_counts(mapped);
    }
}

proof fn lemma_all_open(ls: Seq<Seq<char>>)
    requires
        forall|i: int| 0 <= i < ls.len() ==> is_unfinished_spec(#[trigger] ls[i]) && !is_finished_spec(ls[i]),
    ensures
        unfinished_lines(ls) == ls,
        done_count(ls) == 0,
    decreases ls.len(),
{
    if ls.len() > 0 {
        assert forall|i: int| 0 <= i < ls.drop_last().len() implies is_unfinished_spec(#[trigger] ls.drop_last()[i])
            && !is_finished_spec(ls.drop_last()[i]) by {
            assert(ls.drop_last()[i] == ls[i]);
        }
        lemma_all_open(ls.drop_last());
        assert(is_unfinished_spec(ls[ls.len() - 1]));
        assert(ls.drop_last().push(ls.last()) =~= ls);
    }
}


/// A trailing `'\r'` never decides whether a five-character mark ending in
/// `']'` begins a text.
proof fn lemma_cr_tail_prefix(t: Seq<char>, p: Seq<char>)
    requires
        t.len() > 0,
        t.last() == '\r',
        p.len() == 5,
        p[4] == ']',
    ensures
        starts_with(t, p) == starts_with(t.drop_last(), p),
{
    if t.len() >= 6 {
        assert(t.drop_last().take(5) =~= t.take(5));
    } else if t.len() == 5 {
        assert(t.take(5)[4] == t[4]);
    }
}

/// Dropping the `'\r'` of a line ending changes no line from todo to not,
/// nor open to done.
proof fn lemma_strip_cr_same(l: Seq<char>)
    ensures
        is_unfinished_spec(strip_cr(l)) == is_unfinished_spec(l),
        is_finished_spec(strip_cr(l)) == is_finished_spec(l),
{
    if l.len() > 0 && l.last() == '\r' {
        let m = l.drop_last();
        lemma_lead(l);
        lemma_lead(m);
        assert(is_ws('\r'));
        if lead(l) == l.len() {
            assert forall|j: int| 0 <= j < m.len() implies is_ws(#[trigger] m[j]) by {
                assert(m[j] == l[j]);
            }
            lemma_lead_is_first_non_ws(m, m.len() as int);
            assert(trim_start(l) =~= Seq::<char>::empty());
            assert(trim_start(m) =~= Seq::<char>::empty());
        } else {
            assert(lead(l) < l.len() - 1) by {
                if lead(l) == l.len() - 1 {
                    assert(l[l.len() - 1] == l.last());
                }
            }
            lemma_lead_drop_last(l);
            let t = trim_start(l);
            assert(trim_start(m) =~= t.drop_last());
            assert(t.last() == '\r');
            lemma_cr_tail_prefix(t, seq!['-', ' ', '[', ' ', ']']);
            lemma_cr_tail_prefix(t, seq!['*', ' ', '[', ' ', ']']);
            let lt = t.map_values(|c: char| ascii_lower(c));
            assert(lt.last() == ascii_lower('\r'));
            assert(lt.drop_last() =~= t.drop_last().map_values(|c: char| ascii_lower(c)));
            lemma_cr_tail_prefix(lt, seq!['-', ' ', '[', 'x', ']']);
            lemma_cr_tail_prefix(lt, seq!['*', ' ', '[', 'x', ']']);
        }
    }
}

/// The counts of a single line.
proof fn lemma_counts_one(l: Seq<char>)
    ensures
        done_count(seq![l]) == (if is_finished_spec(l) { 1nat } else { 0nat }),
        open_count(seq![l]) == (if is_unfinished_spec(l) { 1nat } else { 0nat }),
{
    let e = Seq::<Seq<char>>::empty();
    assert(seq![l].drop_last() =~= e);
    assert(seq![l].last() == l);
    assert(done_count(e) == 0);
    assert(unfinished_lines(e) =~= e);
    assert(done_count(seq![l]) == done_count(e) + (if is_finished_spec(l) { 1nat } else { 0nat }));
    if is_unfinished_spec(l) {
        assert(unfinished_lines(seq![l]) =~= unfinished_lines(e).push(l));
    } else {
        assert(unfinished_lines(seq![l]) =~= unfinished_lines(e));
    }
}

proof fn lemma_counts_split_around(a: Seq<char>, b: Seq<char>, cur: Seq<char>)
    ensures
        done_count(split_lines(a + seq!['\n'] + b, cur))
            == done_count(split_lines(a, cur)) + done_count(split_lines(b, Seq::empty())),
        open_count(split_lines(a + seq!['\n'] + b, cur))
            == open_count(split_lines(a, cur)) + open_count(split_lines(b, Seq::empty())),
    decreases a.len(),
{
    let nl = seq!['\n'];
    if a.len() == 0 {
        assert(a + nl + b =~= nl + b);
        lemma_split_newline(b, cur);
        lemma_counts_append(seq![strip_cr(cur)], split_lines(b, Seq::empty()));
        lemma_counts_one(strip_cr(cur));
        lemma_strip_cr_same(cur);
        if cur.len() == 0 {
            lemma_blank_is_not_a_todo();
            assert(strip_cr(cur) =~= Seq::<char>::empty());
            assert(split_lines(a, cur) =~= Seq::<Seq<char>>::empty());
            assert(unfinished_lines(Seq::<Seq<char>>::empty()) =~= Seq::<Seq<char>>::empty());
        } else {
            assert(split_lines(a, cur) =~= seq![cur]);
            lemma_counts_one(cur);
        }
    } else {
        let rest = a.drop_first();
        assert((a + nl + b)[0] == a[0]);
        assert((a + nl + b).drop_first() =~= rest + nl + b);
        if a[0] == '\n' {
            lemma_counts_split_around(rest, b, Seq::empty());
            lemma_counts_append(seq![strip_cr(cur)], split_lines(rest + nl + b, Seq::empty()));
            lemma_counts_append(seq![strip_cr(cur)], split_lines(rest, Seq::empty()));
        } else {
            lemma_counts_split_around(rest, b, cur.push(a[0]));
        }
    }
}

/// Counting is per line: two bodies joined by a line break hold the done and
/// the open todos of both.
pub proof fn lemma_tally_adds_up(a: Seq<char>, b: Seq<char>)
    ensures
        done_count(lines_spec(a + seq!['\n'] + b)) == done_count(lines_spec(a)) + done_count(lines_spec(b)),
        open_count(lines_spec(a + seq!['\n'] + b)) == open_count(lines_spec(a)) + open_count(lines_spec(b)),
{
    lemma_counts_split_around(a, b, Seq::empty());
}

} // verus!
