use vstd::prelude::*;
use crate::text::{chars_of, ends_with, find_char, matches_at, string_of};

verus! {

/// Which half of a migration a script is, and which way a run moves.
#[derive(PartialEq, Eq, Structural, Clone, Copy, Debug)]
pub enum Direction {
    Up,
    Down,
}

/// The characters of the root sentinel that a down-revision header may hold.
pub open spec fn none_word() -> Seq<char> {
    seq!['N', 'o', 'n', 'e']
}

/// One migration: an up and a down script that share an identifier.
pub struct Migration {
    /// Identifier shared by both halves.
    pub id: String,
    /// Human-readable name, words separated by spaces.
    pub name: String,
    /// Creation stamp, `{date}_{time}`.
    pub created_at: String,
    /// The down-revision header as stored, when the script has one.
    pub down_revision: Option<String>,
    /// File name shared by both halves, without `_up.sql` or `_down.sql`.
    pub stem: String,
}

/// Where the pointer goes when the migration is reversed: the stored
/// down-revision, with the sentinel `None` and a missing header both meaning absent.
pub open spec fn down_target(m: Migration) -> Option<Seq<char>> {
    match m.down_revision {
        Some(s) => if s@ == none_word() {
            None
        } else {
            Some(s@)
        },
        None => None,
    }
}

impl Migration {
    /// The pointer value after this migration is reversed.
    pub fn down_target(&self) -> (r: Option<String>)
        ensures
            crate::store::opt_view(r) == down_target(*self),
    {
        match &self.down_revision {
            Some(s) => {
                let none = "None".to_owned();
                proof {
                    reveal_strlit("None");
                    assert(none@ =~= none_word());
                }
                if *s == none {
                    None
                } else {
                    Some(s.clone())
                }
            },
            None => None,
        }
    }
}

/// The file-name ending of a script in `d`.
pub open spec fn suffix_of(d: Direction) -> Seq<char> {
    match d {
        Direction::Up => seq!['_', 'u', 'p', '.', 's', 'q', 'l'],
        Direction::Down => seq!['_', 'd', 'o', 'w', 'n', '.', 's', 'q', 'l'],
    }
}

/// No character of `s` is the field separator `_`.
pub open spec fn no_sep(s: Seq<char>) -> bool {
    forall|i: int| 0 <= i < s.len() ==> s[i] != '_'
}

/// The name words of a file name: separators read as spaces.
pub open spec fn spaced(s: Seq<char>) -> Seq<char> {
    s.map_values(|c: char| if c == '_' { ' ' } else { c })
}

/// `{date}_{time}_{id}_{rest}` followed by the ending for `d`.
pub open spec fn script_file_name(
    date: Seq<char>,
    time: Seq<char>,
    id: Seq<char>,
    rest: Seq<char>,
    d: Direction,
) -> Seq<char> {
    date + seq!['_'] + time + seq!['_'] + id + seq!['_'] + rest + suffix_of(d)
}

/// One half of a migration, as read from its file name.
pub struct MigrationScript {
    pub date: String,
    pub time: String,
    pub id: String,
    /// Name words, separated by spaces.
    pub name: String,
    pub direction: Direction,
}

/// What a script's file name says of it.
pub struct ScriptView {
    pub date: Seq<char>,
    pub time: Seq<char>,
    pub id: Seq<char>,
    pub name: Seq<char>,
    pub direction: Direction,
}

impl View for MigrationScript {
    type V = ScriptView;

    open spec fn view(&self) -> ScriptView {
        ScriptView {
            date: self.date@,
            time: self.time@,
            id: self.id@,
            name: self.name@,
            direction: self.direction,
        }
    }
}

/// `f` is the file name of the script `m`, with `rest` the name part as written.
pub open spec fn names_script_with(f: Seq<char>, m: ScriptView, rest: Seq<char>) -> bool {
    &&& no_sep(m.date)
    &&& no_sep(m.time)
    &&& no_sep(m.id)
    &&& rest.len() > 0
    &&& f == script_file_name(m.date, m.time, m.id, rest, m.direction)
    &&& m.name == spaced(rest)
}

/// `f` is the file name of the script `m`.
pub open spec fn names_script(f: Seq<char>, m: ScriptView) -> bool {
    exists|rest: Seq<char>| names_script_with(f, m, rest)
}

/// The script that the file name `f` names, if it has the shape of one.
pub open spec fn script_named(f: Seq<char>) -> Option<ScriptView> {
    if exists|m: ScriptView| names_script(f, m) {
        Some(choose|m: ScriptView| names_script(f, m))
    } else {
        None
    }
}

proof fn lemma_suffixes_differ(f: Seq<char>)
    requires
        f.len() >= 9,
        f.subrange(f.len() - 7, f.len() as int) == suffix_of(Direction::Up),
    ensures
        f.subrange(f.len() - 9, f.len() as int) != suffix_of(Direction::Down),
{
    assert(f.subrange(f.len() - 7, f.len() as int)[0] == '_');
    assert(f.subrange(f.len() - 9, f.len() as int)[2] == f[f.len() - 7]);
}

proof fn lemma_script_shape(f: Seq<char>, m: ScriptView, rest: Seq<char>)
    requires
        names_script_with(f, m, rest),
    ensures
        ({
            let d = m.date.len() as int;
            let t = d + 1 + m.time.len();
            let i = t + 1 + m.id.len();
            let e = f.len() - suffix_of(m.direction).len();
            &&& suffix_of(m.direction).len() <= f.len()
            &&& f.subrange(e, f.len() as int) == suffix_of(m.direction)
            &&& f[d] == '_' && f[t] == '_' && f[i] == '_'
            &&& forall|j: int| 0 <= j < d ==> f[j] != '_'
            &&& forall|j: int| d + 1 <= j < t ==> f[j] != '_'
            &&& forall|j: int| t + 1 <= j < i ==> f[j] != '_'
            &&& i + 1 < e
            &&& rest == f.subrange(i + 1, e)
            &&& m.date == f.subrange(0, d)
            &&& m.time == f.subrange(d + 1, t)
            &&& m.id == f.subrange(t + 1, i)
        }),
{
    let d = m.date.len() as int;
    let t = d + 1 + m.time.len();
    let i = t + 1 + m.id.len();
    let e = f.len() - suffix_of(m.direction).len();
    assert(f.subrange(e, f.len() as int) =~= suffix_of(m.direction));
    assert(rest =~= f.subrange(i + 1, e));
    assert(m.date =~= f.subrange(0, d));
    assert(m.time =~= f.subrange(d + 1, t));
    assert(m.id =~= f.subrange(t + 1, i));
    assert forall|j: int| 0 <= j < d implies f[j] != '_' by {
        assert(f[j] == m.date[j]);
    }
    assert forall|j: int| d + 1 <= j < t implies f[j] != '_' by {
        assert(f[j] == m.time[j - d - 1]);
    }
    assert forall|j: int| t + 1 <= j < i implies f[j] != '_' by {
        assert(f[j] == m.id[j - t - 1]);
    }
}

proof fn lemma_named_suffix(f: Seq<char>, m: ScriptView, rest: Seq<char>)
    requires
        names_script_with(f, m, rest),
    ensures
        suffix_of(m.direction).len() <= f.len(),
        f.subrange(f.len() - suffix_of(m.direction).len(), f.len() as int) == suffix_of(m.direction),
{
    lemma_script_shape(f, m, rest);
}

/// A file name names at most one script.
proof fn lemma_script_unique(f: Seq<char>, a: ScriptView, b: ScriptView)
    requires
        names_script(f, a),
        names_script(f, b),
    ensures
        a == b,
{
    let ra = choose|rest: Seq<char>| names_script_with(f, a, rest);
    let rb = choose|rest: Seq<char>| names_script_with(f, b, rest);
    lemma_named_suffix(f, a, ra);
    let dir = a.direction;
    let e = f.len() - suffix_of(dir).len();
    lemma_fields_of(f, a, ra, dir, e);
    lemma_fields_of(f, b, rb, dir, e);
    let da = a.date.len() as int;
    let ta = da + 1 + a.time.len();
    let ia = ta + 1 + a.id.len();
    let db = b.date.len() as int;
    let tb = db + 1 + b.time.len();
    let ib = tb + 1 + b.id.len();
    lemma_fields_unique(f, e, da, ta, ia, db, tb, ib);
    assert(a == b);
}

pub proof fn lemma_named(f: Seq<char>, m: ScriptView, rest: Seq<char>)
    requires
        names_script_with(f, m, rest),
    ensures
        script_named(f) == Some(m),
{
    assert(names_script(f, m));
    let c = choose|v: ScriptView| names_script(f, v);
    lemma_script_unique(f, c, m);
}

proof fn lemma_no_ending(f: Seq<char>)
    requires
        forall|d: Direction|
            !(suffix_of(d).len() <= f.len() && f.subrange(f.len() - suffix_of(d).len(), f.len() as int)
                == suffix_of(d)),
    ensures
        script_named(f) is None,
{
    assert forall|m: ScriptView| !names_script(f, m) by {
        if names_script(f, m) {
            let rest = choose|rest: Seq<char>| names_script_with(f, m, rest);
            lemma_script_shape(f, m, rest);
        }
    }
}

proof fn lemma_fields_of(f: Seq<char>, m: ScriptView, rest: Seq<char>, dir: Direction, e: int)
    requires
        names_script_with(f, m, rest),
        suffix_of(dir).len() <= f.len(),
        e == f.len() - suffix_of(dir).len(),
        f.subrange(e, f.len() as int) == suffix_of(dir),
    ensures
        fields_at(
            f,
            e,
            m.date.len() as int,
            (m.date.len() + 1 + m.time.len()) as int,
            (m.date.len() + 1 + m.time.len() + 1 + m.id.len()) as int,
        ),
        m.direction == dir,
        m.date == f.subrange(0, m.date.len() as int),
        m.time == f.subrange((m.date.len() + 1) as int, (m.date.len() + 1 + m.time.len()) as int),
        m.id == f.subrange(
            (m.date.len() + 1 + m.time.len() + 1) as int,
            (m.date.len() + 1 + m.time.len() + 1 + m.id.len()) as int,
        ),
        rest == f.subrange((m.date.len() + 1 + m.time.len() + 1 + m.id.len() + 1) as int, e),
{
    lemma_script_shape(f, m, rest);
    if m.direction != dir {
        lemma_suffixes_differ(f);
    }
}

proof fn lemma_no_fields(f: Seq<char>, dir: Direction, e: int)
    requires
        suffix_of(dir).len() <= f.len(),
        e == f.len() - suffix_of(dir).len(),
        f.subrange(e, f.len() as int) == suffix_of(dir),
        forall|a: int, b: int, c: int| !#[trigger] fields_at(f, e, a, b, c),
    ensures
        script_named(f) is None,
{
    assert forall|m: ScriptView| !names_script(f, m) by {
        if names_script(f, m) {
            let rest = choose|rest: Seq<char>| names_script_with(f, m, rest);
            lemma_fields_of(f, m, rest, dir, e);
        }
    }
}

proof fn lemma_fields_name(f: Seq<char>, dir: Direction, e: int, a: int, b: int, c: int)
    requires
        suffix_of(dir).len() <= f.len(),
        e == f.len() - suffix_of(dir).len(),
        f.subrange(e, f.len() as int) == suffix_of(dir),
        fields_at(f, e, a, b, c),
    ensures
        script_named(f) == Some(
            ScriptView {
                date: f.subrange(0, a),
                time: f.subrange(a + 1, b),
                id: f.subrange(b + 1, c),
                name: spaced(f.subrange(c + 1, e)),
                direction: dir,
            },
        ),
{
    let m = ScriptView {
        date: f.subrange(0, a),
        time: f.subrange(a + 1, b),
        id: f.subrange(b + 1, c),
        name: spaced(f.subrange(c + 1, e)),
        direction: dir,
    };
    let rest = f.subrange(c + 1, e);
    assert(f =~= script_file_name(m.date, m.time, m.id, rest, dir));
    lemma_named(f, m, rest);
}

/// A file name that names a script ends with that script's ending.
pub proof fn lemma_named_ending(f: Seq<char>)
    requires
        script_named(f) is Some,
    ensures
        ({
            let d = script_named(f)->Some_0.direction;
            suffix_of(d).len() <= f.len() && f.subrange(
                f.len() - suffix_of(d).len(),
                f.len() as int,
            ) == suffix_of(d)
        }),
{
    let m = choose|m: ScriptView| names_script(f, m);
    let rest = choose|rest: Seq<char>| names_script_with(f, m, rest);
    lemma_script_shape(f, m, rest);
}

proof fn lemma_fields_unique(f: Seq<char>, e: int, a1: int, b1: int, c1: int, a2: int, b2: int, c2: int)
    requires
        fields_at(f, e, a1, b1, c1),
        fields_at(f, e, a2, b2, c2),
    ensures
        a1 == a2 && b1 == b2 && c1 == c2,
{
}

/// Positions `a < b < c` of the first three separators before `e`, with a
/// nonempty name part between `c` and `e`.
pub open spec fn fields_at(f: Seq<char>, e: int, a: int, b: int, c: int) -> bool {
    &&& 0 <= a < b < c
    &&& c + 1 < e <= f.len()
    &&& f[a] == '_' && f[b] == '_' && f[c] == '_'
    &&& forall|j: int| 0 <= j < a ==> f[j] != '_'
    &&& forall|j: int| a < j < b ==> f[j] != '_'
    &&& forall|j: int| b < j < c ==> f[j] != '_'
}

/// Finds the three field separators of a file name whose ending starts at `e`.
fn split_fields(cs: &Vec<char>, e: usize) -> (r: Option<(usize, usize, usize)>)
    requires
        e <= cs@.len(),
    ensures
        match r {
            Some((a, b, c)) => fields_at(cs@, e as int, a as int, b as int, c as int),
            None => forall|a: int, b: int, c: int| !fields_at(cs@, e as int, a, b, c),
        },
{
    let a = match find_char(cs, '_', 0, e) {
        Some(a) => a,
        None => {
            return None;
        },
    };
    let b = match find_char(cs, '_', a + 1, e) {
        Some(b) => b,
        None => {
            proof {
                assert forall|x: int, y: int, z: int| !fields_at(cs@, e as int, x, y, z) by {
                    if fields_at(cs@, e as int, x, y, z) {
                        assert(x == a);
                    }
                }
            }
            return None;
        },
    };
    let c = match find_char(cs, '_', b + 1, e) {
        Some(c) => c,
        None => {
            proof {
                assert forall|x: int, y: int, z: int| !fields_at(cs@, e as int, x, y, z) by {
                    if fields_at(cs@, e as int, x, y, z) {
                        assert(x == a);
                        assert(y == b);
                    }
                }
            }
            return None;
        },
    };
    if c + 1 >= e {
        proof {
            assert forall|x: int, y: int, z: int| !fields_at(cs@, e as int, x, y, z) by {
                if fields_at(cs@, e as int, x, y, z) {
                    assert(x == a);
                    assert(y == b);
                    assert(z == c);
                }
            }
        }
        return None;
    }
    Some((a, b, c))
}

/// The characters `cs[from..to]` with separators read as spaces.
fn spaced_string(cs: &Vec<char>, from: usize, to: usize) -> (r: String)
    requires
        from <= to <= cs@.len(),
    ensures
        r@ == spaced(cs@.subrange(from as int, to as int)),
{
    let mut name = String::new();
    let mut k: usize = from;
    while k < to
        invariant
            from <= k <= to <= cs@.len(),
            name@ == spaced(cs@.subrange(from as int, k as int)),
        decreases to - k,
    {
        let c = cs[k];
        if c == '_' {
            name.push(' ');
        } else {
            name.push(c);
        }
        proof {
            assert(spaced(cs@.subrange(from as int, k + 1)) =~= spaced(
                cs@.subrange(from as int, k as int),
            ).push(
                if c == '_' {
                    ' '
                } else {
                    c
                },
            ));
        }
        k = k + 1;
    }
    name
}

/// The direction whose ending `cs` has, if any.
fn ending_of(cs: &Vec<char>) -> (r: Option<Direction>)
    ensures
        match r {
            Some(d) => suffix_of(d).len() <= cs@.len() && cs@.subrange(
                cs@.len() - suffix_of(d).len(),
                cs@.len() as int,
            ) == suffix_of(d),
            None => forall|d: Direction|
                !(suffix_of(d).len() <= cs@.len() && cs@.subrange(
                    cs@.len() - suffix_of(d).len(),
                    cs@.len() as int,
                ) == suffix_of(d)),
        },
        forall|d: Direction|
            suffix_of(d).len() <= cs@.len() && cs@.subrange(
                cs@.len() - suffix_of(d).len(),
                cs@.len() as int,
            ) == suffix_of(d) ==> r == Some(d),
{
    let up = vec!['_', 'u', 'p', '.', 's', 'q', 'l'];
    let down = vec!['_', 'd', 'o', 'w', 'n', '.', 's', 'q', 'l'];
    proof {
        assert(up@ =~= suffix_of(Direction::Up));
        assert(down@ =~= suffix_of(Direction::Down));
    }
    if ends_with(cs, &up) {
        proof {
            if cs@.len() >= 9 {
                lemma_suffixes_differ(cs@);
            }
        }
        Some(Direction::Up)
    } else if ends_with(cs, &down) {
        Some(Direction::Down)
    } else {
        None
    }
}

/// Reads a script's date, time, identifier, name and direction from its file
/// name `{date}_{time}_{id}_{name words}_{up|down}.sql`; `None` when the name
/// has another shape.
pub fn parse_script_name(file_name: &str) -> (r: Option<MigrationScript>)
    ensures
        match r {
            Some(m) => script_named(file_name@) == Some(m@),
            None => script_named(file_name@) is None,
        },
{
    let cs = chars_of(file_name);
    let ghost f = cs@;
    let n = cs.len();
    let dir = match ending_of(&cs) {
        Some(d) => d,
        None => {
            proof {
                lemma_no_ending(f);
            }
            return None;
        },
    };
    let e: usize = match dir {
        Direction::Up => n - 7,
        Direction::Down => n - 9,
    };
    let (a, b, c) = match split_fields(&cs, e) {
        Some(t) => t,
        None => {
            proof {
                lemma_no_fields(f, dir, e as int);
            }
            return None;
        },
    };
    let date = string_of(&cs, 0, a);
    let time = string_of(&cs, a + 1, b);
    let id = string_of(&cs, b + 1, c);
    let name = spaced_string(&cs, c + 1, e);
    let m = MigrationScript { date, time, id, name, direction: dir };
    proof {
        lemma_fields_name(f, dir, e as int, a as int, b as int, c as int);
    }
    Some(m)
}

/// The header that carries a script's down-revision.
pub open spec fn revision_mark() -> Seq<char> {
    seq![
        '-', '-', ' ', 'D', 'o', 'w', 'n', ' ', 'R', 'e', 'v', 'i', 's', 'i', 'o', 'n', ':', ' ',
    ]
}

/// A line of `t` starts at `p` with the down-revision header.
pub open spec fn header_line(t: Seq<char>, p: int) -> bool {
    &&& 0 <= p
    &&& p + revision_mark().len() <= t.len()
    &&& (p == 0 || t[p - 1] == '\n')
    &&& t.subrange(p, p + revision_mark().len()) == revision_mark()
}

/// `e` ends the line of `t` that runs on from `s`.
pub open spec fn line_end_at(t: Seq<char>, s: int, e: int) -> bool {
    &&& s <= e <= t.len()
    &&& (e == t.len() || t[e] == '\n')
    &&& forall|j: int| s <= j < e ==> t[j] != '\n'
}

/// `e` ends the line whose header starts at `p`.
pub open spec fn value_end(t: Seq<char>, p: int, e: int) -> bool {
    line_end_at(t, p + revision_mark().len(), e)
}

/// The text of a line without its line break: a `\r` before a `\n` is part of the break.
pub open spec fn line_text(t: Seq<char>, s: int, e: int) -> Seq<char> {
    if e < t.len() && s < e && t[e - 1] == '\r' {
        t.subrange(s, e - 1)
    } else {
        t.subrange(s, e)
    }
}

/// `v` is what follows the header on the first header line of `t`.
pub open spec fn down_revision_in(t: Seq<char>, v: Seq<char>) -> bool {
    exists|p: int, e: int|
        header_line(t, p) && (forall|q: int| 0 <= q < p ==> !header_line(t, q))
            && #[trigger] value_end(t, p, e) && v == line_text(t, p + revision_mark().len(), e)
}

/// The down-revision stored in the text `t`, if a line carries the header.
pub open spec fn revision_in(t: Seq<char>) -> Option<Seq<char>> {
    if exists|p: int| header_line(t, p) {
        Some(choose|v: Seq<char>| down_revision_in(t, v))
    } else {
        None
    }
}

pub proof fn lemma_revision_unique(t: Seq<char>, v: Seq<char>, w: Seq<char>)
    requires
        down_revision_in(t, v),
        down_revision_in(t, w),
    ensures
        v == w,
{
    let (p1, e1) = choose|p: int, e: int|
        header_line(t, p) && (forall|q: int| 0 <= q < p ==> !header_line(t, q))
            && #[trigger] value_end(t, p, e) && v == line_text(t, p + revision_mark().len(), e);
    let (p2, e2) = choose|p: int, e: int|
        header_line(t, p) && (forall|q: int| 0 <= q < p ==> !header_line(t, q))
            && #[trigger] value_end(t, p, e) && w == line_text(t, p + revision_mark().len(), e);
    assert(p1 == p2);
    if e1 < e2 {
        assert(t[e1] == '\n');
    } else if e2 < e1 {
        assert(t[e2] == '\n');
    }
}

/// The value of the first `-- Down Revision: ` line of a script, as stored
/// (the sentinel `None` included); `None` when no line has the header.
pub fn read_down_revision(text: &str) -> (r: Option<String>)
    ensures
        crate::store::opt_view(r) == revision_in(text@),
{
    let cs = chars_of(text);
    let n = cs.len();
    let mark = vec![
        '-', '-', ' ', 'D', 'o', 'w', 'n', ' ', 'R', 'e', 'v', 'i', 's', 'i', 'o', 'n', ':', ' ',
    ];
    proof {
        assert(mark@ =~= revision_mark());
    }
    let mut p: usize = 0;
    while p < n
        invariant
            n == cs@.len(),
            cs@ == text@,
            mark@ == revision_mark(),
            p <= n,
            forall|q: int| 0 <= q < p ==> !header_line(cs@, q),
        decreases n - p,
    {
        let starts = p == 0 || cs[p - 1] == '\n';
        if starts && matches_at(&cs, &mark, p) {
            let s = p + 18;
            let e = match find_char(&cs, '\n', s, n) {
                Some(e) => e,
                None => n,
            };
            let end = if e < n && s < e && cs[e - 1] == '\r' {
                e - 1
            } else {
                e
            };
            let v = string_of(&cs, s, end);
            proof {
                assert(header_line(cs@, p as int));
                assert(value_end(cs@, p as int, e as int));
                assert(v@ == line_text(cs@, s as int, e as int));
                assert(down_revision_in(cs@, v@));
                let c = choose|w: Seq<char>| down_revision_in(cs@, w);
                lemma_revision_unique(cs@, c, v@);
            }
            return Some(v);
        }
        p = p + 1;
    }
    proof {
        assert forall|q: int| !header_line(cs@, q) by {
            if header_line(cs@, q) {
                assert(q < n);
            }
        }
    }
    None
}

} // verus!
