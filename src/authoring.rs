use vstd::prelude::*;
use vstd::string::*;
use crate::script::{
    Direction, ScriptView, down_revision_in, header_line, lemma_named, lemma_revision_unique,
    no_sep, revision_in, revision_mark, script_named, spaced, suffix_of, value_end,
};
use crate::store::opt_view;

verus! {

/// The files of a new migration: names and texts of both halves.
pub struct NewMigration {
    pub up_file: String,
    pub down_file: String,
    pub up_text: String,
    pub down_text: String,
}

/// A name with each space turned into the field separator.
pub open spec fn slug(name: Seq<char>) -> Seq<char> {
    name.map_values(|c: char| if c == ' ' { '_' } else { c })
}

/// `{stamp}_{id}_{slug}` and the ending for `d`.
pub open spec fn new_file_name(stamp: Seq<char>, id: Seq<char>, name: Seq<char>, d: Direction) -> Seq<
    char,
> {
    stamp + seq!['_'] + id + seq!['_'] + slug(name) + suffix_of(d)
}

/// What a down-revision header records for a previous head.
pub open spec fn recorded_head(head: Option<Seq<char>>) -> Seq<char> {
    match head {
        Some(h) => h,
        None => "None"@,
    }
}

/// The three header lines of a new script.
pub open spec fn new_file_text(d: Direction, id: Seq<char>, head: Option<Seq<char>>) -> Seq<char> {
    let comment = match d {
        Direction::Up => "-- SQL commands to upgrade\n"@,
        Direction::Down => "-- SQL commands to downgrade\n"@,
    };
    comment + "-- Revision: "@ + id + "\n"@ + "-- Down Revision: "@ + recorded_head(head) + "\n"@
}

/// The uuid text form: 36 characters, hyphens and lower-case hex digits.
pub open spec fn uuid_text(s: Seq<char>) -> bool {
    &&& s.len() == 36
    &&& forall|i: int|
        0 <= i < s.len() ==> s[i] == '-' || ('0' <= #[trigger] s[i] <= '9') || ('a' <= s[i] <= 'f')
}

/// Relies on `chrono::Utc::now` and `DateTime::format`: the current UTC time
/// as `%Y-%m-%d_%H:%M:%S`. Nothing is claimed of the value.
#[verifier::external_body]
fn now_stamp() -> (r: String) {
    chrono::Utc::now().format("%Y-%m-%d_%H:%M:%S").to_string()
}

/// Relies on `uuid::Uuid::new_v4` and its `Display`, which writes the
/// hyphenated lower-case form.
#[verifier::external_body]
fn fresh_id() -> (r: String)
    ensures
        uuid_text(r@),
{
    uuid::Uuid::new_v4().to_string()
}

/// The name with each space turned into the field separator.
fn slug_of(name: &str) -> (r: String)
    ensures
        r@ == slug(name@),
{
    let n = name.unicode_len();
    let mut r = String::new();
    let mut i: usize = 0;
    while i < n
        invariant
            n == name@.len(),
            i <= n,
            r@ == slug(name@.take(i as int)),
        decreases n - i,
    {
        let c = name.get_char(i);
        if c == ' ' {
            r.push('_');
        } else {
            r.push(c);
        }
        proof {
            assert(slug(name@.take(i + 1)) =~= slug(name@.take(i as int)).push(
                if c == ' ' {
                    '_'
                } else {
                    c
                },
            ));
        }
        i = i + 1;
    }
    proof {
        assert(name@.take(n as int) =~= name@);
    }
    r
}

/// The file name of one half of a new migration.
fn file_name_for(stamp: &str, id: &str, slugged: &String, d: Direction) -> (r: String)
    ensures
        r@ == stamp@ + seq!['_'] + id@ + seq!['_'] + slugged@ + suffix_of(d),
{
    let mut r = stamp.to_owned();
    r.append("_");
    r.append(id);
    r.append("_");
    r.append(slugged.as_str());
    match d {
        Direction::Up => r.append("_up.sql"),
        Direction::Down => r.append("_down.sql"),
    }
    proof {
        reveal_strlit("_");
        reveal_strlit("_up.sql");
        reveal_strlit("_down.sql");
        assert("_"@ =~= seq!['_']);
        assert("_up.sql"@ =~= suffix_of(Direction::Up));
        assert("_down.sql"@ =~= suffix_of(Direction::Down));
    }
    r
}

/// The header text of one half of a new migration.
fn file_text_for(d: Direction, id: &str, head: &Option<String>) -> (r: String)
    ensures
        r@ == new_file_text(d, id@, opt_view(*head)),
{
    let mut r = match d {
        Direction::Up => "-- SQL commands to upgrade\n".to_owned(),
        Direction::Down => "-- SQL commands to downgrade\n".to_owned(),
    };
    r.append("-- Revision: ");
    r.append(id);
    r.append("\n");
    r.append("-- Down Revision: ");
    match head {
        Some(h) => r.append(h.as_str()),
        None => r.append("None"),
    }
    r.append("\n");
    r
}

/// The two files of a migration named `name` with identifier `id`, stamped
/// `stamp`, chained after `head`.
pub fn new_migration_files(stamp: &str, id: &str, name: &str, head: &Option<String>) -> (r: NewMigration)
    ensures
        r.up_file@ == new_file_name(stamp@, id@, name@, Direction::Up),
        r.down_file@ == new_file_name(stamp@, id@, name@, Direction::Down),
        r.up_text@ == new_file_text(Direction::Up, id@, opt_view(*head)),
        r.down_text@ == new_file_text(Direction::Down, id@, opt_view(*head)),
{
    let slugged = slug_of(name);
    NewMigration {
        up_file: file_name_for(stamp, id, &slugged, Direction::Up),
        down_file: file_name_for(stamp, id, &slugged, Direction::Down),
        up_text: file_text_for(Direction::Up, id, head),
        down_text: file_text_for(Direction::Down, id, head),
    }
}

/// The files of a new migration named `name`, stamped now, with a fresh
/// identifier, chained after `head`.
pub fn prepare_migration(name: &str, head: &Option<String>) -> (r: NewMigration)
    ensures
        exists|stamp: Seq<char>, id: Seq<char>|
            #![trigger new_file_name(stamp, id, name@, Direction::Up)]
            uuid_text(id) && r.up_file@ == new_file_name(stamp, id, name@, Direction::Up)
                && r.down_file@ == new_file_name(stamp, id, name@, Direction::Down) && r.up_text@
                == new_file_text(Direction::Up, id, opt_view(*head)) && r.down_text@
                == new_file_text(Direction::Down, id, opt_view(*head)),
{
    let stamp = now_stamp();
    let id = fresh_id();
    let r = new_migration_files(stamp.as_str(), id.as_str(), name, head);
    proof {
        assert(uuid_text(id@));
        assert(r.up_file@ == new_file_name(stamp@, id@, name@, Direction::Up));
    }
    r
}

/// A new script's file name reads back as the script it was written for:
/// same date, time, identifier and direction, and the name with its spaces
/// (and any separators in it) as spaces.
pub proof fn lemma_new_file_name_parses(
    date: Seq<char>,
    time: Seq<char>,
    id: Seq<char>,
    name: Seq<char>,
    d: Direction,
)
    requires
        no_sep(date),
        no_sep(time),
        no_sep(id),
        name.len() > 0,
    ensures
        script_named(new_file_name(date + seq!['_'] + time, id, name, d)) == Some(
            ScriptView { date, time, id, name: spaced(slug(name)), direction: d },
        ),
{
    let f = new_file_name(date + seq!['_'] + time, id, name, d);
    let m = ScriptView { date, time, id, name: spaced(slug(name)), direction: d };
    assert(f =~= crate::script::script_file_name(date, time, id, slug(name), d));
    lemma_named(f, m, slug(name));
}

/// No character of `s` breaks a line.
pub open spec fn single_line(s: Seq<char>) -> bool {
    forall|i: int| 0 <= i < s.len() ==> s[i] != '\n' && s[i] != '\r'
}

/// No line break in `s`.
pub open spec fn no_break(s: Seq<char>) -> bool {
    forall|i: int| 0 <= i < s.len() ==> s[i] != '\n'
}

#[verifier::rlimit(60)]
proof fn lemma_revision_of_lines(c: Seq<char>, r: Seq<char>, id: Seq<char>, h: Seq<char>)
    requires
        c.len() >= 4,
        c[3] != 'D',
        c.last() == '\n',
        no_break(c.drop_last()),
        r.len() >= 4,
        r[3] != 'D',
        no_break(r),
        no_break(id),
        single_line(h),
    ensures
        revision_in(c + r + id + seq!['\n'] + revision_mark() + h + seq!['\n']) == Some(h),
{
    let t = c + r + id + seq!['\n'] + revision_mark() + h + seq!['\n'];
    let p: int = (c.len() + r.len() + id.len() + 1) as int;
    let e: int = p + 18 + h.len();
    assert(t.subrange(p, p + 18) =~= revision_mark());
    assert(header_line(t, p));
    assert forall|q: int| 0 <= q < p implies !header_line(t, q) by {
        if header_line(t, q) {
            if q == 0 {
                assert(t.subrange(q, q + 18)[3] == t[3]);
            } else if q == c.len() {
                assert(t.subrange(q, q + 18)[3] == t[q + 3]);
            } else if q < c.len() {
                assert(t[q - 1] == c.drop_last()[q - 1]);
            } else if q < c.len() + r.len() {
                assert(t[q - 1] == r[q - 1 - c.len()]);
            } else {
                assert(t[q - 1] == id[q - 1 - c.len() - r.len()]);
            }
        }
    }
    assert forall|j: int| p + 18 <= j < e implies t[j] != '\n' by {
        assert(t[j] == h[j - p - 18]);
    }
    assert(value_end(t, p, e));
    if h.len() > 0 {
        assert(t[e - 1] == h[h.len() - 1]);
    }
    assert(t.subrange(p + 18, e) =~= h);
    assert(down_revision_in(t, h));
    let v = choose|v: Seq<char>| down_revision_in(t, v);
    lemma_revision_unique(t, v, h);
}

/// A new script's text reads back the previous head it was chained after
/// (`None` when there was none), so the chain written at authoring is the
/// chain that downgrades follow.
pub proof fn lemma_new_file_text_revision(d: Direction, id: Seq<char>, head: Option<Seq<char>>)
    requires
        no_break(id),
        single_line(recorded_head(head)),
    ensures
        revision_in(new_file_text(d, id, head)) == Some(recorded_head(head)),
{
    reveal_strlit("-- SQL commands to upgrade\n");
    reveal_strlit("-- SQL commands to downgrade\n");
    reveal_strlit("-- Revision: ");
    reveal_strlit("\n");
    reveal_strlit("-- Down Revision: ");
    let c = match d {
        Direction::Up => "-- SQL commands to upgrade\n"@,
        Direction::Down => "-- SQL commands to downgrade\n"@,
    };
    let r = "-- Revision: "@;
    assert("\n"@ =~= seq!['\n']);
    assert("-- Down Revision: "@ =~= revision_mark());
    assert(no_break(c.drop_last()));
    assert(no_break(r));
    assert(new_file_text(d, id, head) =~= c + r + id + seq!['\n'] + revision_mark() + recorded_head(
        head,
    ) + seq!['\n']);
    lemma_revision_of_lines(c, r, id, recorded_head(head));
}

} // verus!
