use vstd::prelude::*;
use vstd::multiset::Multiset;
use vstd::seq_lib::*;
use crate::script::{
    Direction, Migration, parse_script_name, read_down_revision, revision_in, script_named,
    suffix_of,
};
use crate::store::opt_view;
use crate::script::lemma_named_ending;
use crate::text::{chars_of, string_of};
use vstd::string::*;

verus! {

broadcast use group_to_multiset_ensures;

/// A file of the migration directory: its name and its text.
pub struct ScriptFile {
    pub file_name: String,
    pub text: String,
}

/// What a migration holds, as plain sequences.
pub struct MigrationView {
    pub id: Seq<char>,
    pub name: Seq<char>,
    pub created_at: Seq<char>,
    pub down_revision: Option<Seq<char>>,
    pub stem: Seq<char>,
}

impl View for Migration {
    type V = MigrationView;

    open spec fn view(&self) -> MigrationView {
        MigrationView {
            id: self.id@,
            name: self.name@,
            created_at: self.created_at@,
            down_revision: opt_view(self.down_revision),
            stem: self.stem@,
        }
    }
}

/// The views of a list of migrations.
pub open spec fn views(ms: Seq<Migration>) -> Seq<MigrationView> {
    ms.map_values(|m: Migration| m@)
}

/// Some file of `files` is called `name`.
pub open spec fn has_file(files: Seq<ScriptFile>, name: Seq<char>) -> bool {
    exists|i: int| 0 <= i < files.len() && #[trigger] files[i].file_name@ == name
}

/// The migration that `file` stands for: a down script whose up script is also
/// among `files`; its down-revision is read from the down script's text.
pub open spec fn migration_from(file: ScriptFile, files: Seq<ScriptFile>) -> Option<MigrationView> {
    let f = file.file_name@;
    let stem = f.subrange(0, f.len() - suffix_of(Direction::Down).len());
    match script_named(f) {
        Some(s) => if s.direction == Direction::Down && has_file(
            files,
            stem + suffix_of(Direction::Up),
        ) {
            Some(
                MigrationView {
                    id: s.id,
                    name: s.name,
                    created_at: s.date + seq!['_'] + s.time,
                    down_revision: revision_in(file.text@),
                    stem,
                },
            )
        } else {
            None
        },
        None => None,
    }
}

/// The migrations of the first `n` files, in listing order.
pub open spec fn gathered(files: Seq<ScriptFile>, n: int) -> Seq<MigrationView>
    decreases n,
{
    if n <= 0 {
        Seq::empty()
    } else {
        gathered(files, n - 1) + match migration_from(files[n - 1], files) {
            Some(v) => seq![v],
            None => Seq::empty(),
        }
    }
}

/// Character order of two texts, a prefix coming first.
pub open spec fn text_le(a: Seq<char>, b: Seq<char>) -> bool
    decreases a.len(),
{
    if a.len() == 0 {
        true
    } else if b.len() == 0 {
        false
    } else if a[0] != b[0] {
        a[0] < b[0]
    } else {
        text_le(a.drop_first(), b.drop_first())
    }
}

/// Oldest first: creation stamps never decrease along the list.
pub open spec fn sorted_by_creation(ms: Seq<Migration>) -> bool {
    forall|i: int, j: int|
        0 <= i < j < ms.len() ==> text_le(#[trigger] ms[i].created_at@, #[trigger] ms[j].created_at@)
}

proof fn lemma_text_le_total(a: Seq<char>, b: Seq<char>)
    ensures
        text_le(a, b) || text_le(b, a),
    decreases a.len(),
{
    if a.len() > 0 && b.len() > 0 && a[0] == b[0] {
        lemma_text_le_total(a.drop_first(), b.drop_first());
    }
}

proof fn lemma_text_le_trans(a: Seq<char>, b: Seq<char>, c: Seq<char>)
    requires
        text_le(a, b),
        text_le(b, c),
    ensures
        text_le(a, c),
    decreases a.len(),
{
    if a.len() > 0 && b.len() > 0 && c.len() > 0 && a[0] == b[0] && b[0] == c[0] {
        lemma_text_le_trans(a.drop_first(), b.drop_first(), c.drop_first());
    }
}

/// Whether `a` comes no later than `b` in character order.
pub fn text_le_exec(a: &Vec<char>, b: &Vec<char>) -> (r: bool)
    ensures
        r == text_le(a@, b@),
{
    let mut i: usize = 0;
    proof {
        assert(a@.skip(0) =~= a@);
        assert(b@.skip(0) =~= b@);
    }
    while i < a.len() && i < b.len()
        invariant
            i <= a@.len(),
            i <= b@.len(),
            text_le(a@, b@) == text_le(a@.skip(i as int), b@.skip(i as int)),
        decreases a@.len() - i,
    {
        if a[i] != b[i] {
            return a[i] < b[i];
        }
        proof {
            assert(a@.skip(i as int).drop_first() =~= a@.skip(i + 1));
            assert(b@.skip(i as int).drop_first() =~= b@.skip(i + 1));
        }
        i = i + 1;
    }
    i == a.len()
}

/// Where `x` goes in the sorted `out`: after every migration no later than it
/// at the end of the list.
fn insert_position(out: &Vec<Migration>, xc: &Vec<char>) -> (k: usize)
    requires
        sorted_by_creation(out@),
    ensures
        k <= out@.len(),
        k > 0 ==> text_le(out@[k - 1].created_at@, xc@),
        forall|j: int| k <= j < out@.len() ==> !text_le(#[trigger] out@[j].created_at@, xc@),
{
    let mut k: usize = out.len();
    while k > 0
        invariant
            k <= out@.len(),
            forall|j: int| k <= j < out@.len() ==> !text_le(#[trigger] out@[j].created_at@, xc@),
        decreases k,
    {
        let yc = chars_of(out[k - 1].created_at.as_str());
        if text_le_exec(&yc, xc) {
            return k;
        }
        k = k - 1;
    }
    0
}

/// Orders migrations oldest first by creation stamp; migrations with equal
/// stamps keep their relative order.
pub fn sort_migrations(ms: Vec<Migration>) -> (r: Vec<Migration>)
    ensures
        sorted_by_creation(r@),
        views(r@).to_multiset() == views(ms@).to_multiset(),
{
    let ghost orig = ms@;
    let mut rest = ms;
    let mut out: Vec<Migration> = Vec::new();
    while rest.len() > 0
        invariant
            sorted_by_creation(out@),
            views(out@).to_multiset().add(views(rest@).to_multiset()) == views(orig).to_multiset(),
        decreases rest@.len(),
    {
        let ghost before = rest@;
        let x = rest.remove(0);
        proof {
            assert(views(before).remove(0) =~= views(rest@));
            assert(views(before).to_multiset() == views(rest@).to_multiset().insert(x@));
        }
        let xc = chars_of(x.created_at.as_str());
        let k = insert_position(&out, &xc);
        proof {
            let s = out@.insert(k as int, x);
            assert forall|i: int, j: int| 0 <= i < j < s.len() implies text_le(
                #[trigger] s[i].created_at@,
                #[trigger] s[j].created_at@,
            ) by {
                if j == k {
                    if i < k - 1 {
                        lemma_text_le_trans(
                            out@[i].created_at@,
                            out@[k - 1].created_at@,
                            x.created_at@,
                        );
                    }
                } else if i == k {
                    lemma_text_le_total(x.created_at@, out@[j - 1].created_at@);
                } else if i < k && j > k {
                    lemma_text_le_total(x.created_at@, out@[j - 1].created_at@);
                }
            }
        }
        let ghost out_before = out@;
        out.insert(k, x);
        proof {
            assert(views(out@) =~= views(out_before).insert(k as int, x@));
            assert(views(out@).to_multiset().add(views(rest@).to_multiset()) =~= views(
                orig,
            ).to_multiset());
        }
    }
    proof {
        assert(views(rest@).to_multiset() =~= Multiset::empty());
        assert(views(out@).to_multiset().add(views(rest@).to_multiset()) =~= views(
            out@,
        ).to_multiset());
    }
    out
}

/// Whether some file of `files` is called `name`.
pub fn file_listed(files: &Vec<ScriptFile>, name: &String) -> (r: bool)
    ensures
        r == has_file(files@, name@),
{
    let mut i: usize = 0;
    while i < files.len()
        invariant
            i <= files@.len(),
            forall|j: int| 0 <= j < i ==> files@[j].file_name@ != name@,
        decreases files@.len() - i,
    {
        if files[i].file_name == *name {
            return true;
        }
        i = i + 1;
    }
    false
}

/// The migration that `file` stands for, if it is a down script whose up
/// script is also listed.
pub fn migration_of(file: &ScriptFile, files: &Vec<ScriptFile>) -> (r: Option<Migration>)
    ensures
        match r {
            Some(m) => migration_from(*file, files@) == Some(m@),
            None => migration_from(*file, files@) is None,
        },
{
    let script = match parse_script_name(file.file_name.as_str()) {
        Some(s) => s,
        None => {
            return None;
        },
    };
    if script.direction != Direction::Down {
        return None;
    }
    let cs = chars_of(file.file_name.as_str());
    let n = cs.len();
    proof {
        lemma_named_ending(cs@);
    }
    let stem = string_of(&cs, 0, n - 9);
    let mut up_name = stem.clone();
    up_name.append("_up.sql");
    proof {
        reveal_strlit("_up.sql");
        assert("_up.sql"@ =~= suffix_of(Direction::Up));
    }
    if !file_listed(files, &up_name) {
        return None;
    }
    let mut created_at = script.date;
    created_at.append("_");
    created_at.append(script.time.as_str());
    proof {
        reveal_strlit("_");
        assert("_"@ =~= seq!['_']);
    }
    let down_revision = read_down_revision(file.text.as_str());
    Some(Migration { id: script.id, name: script.name, created_at, down_revision, stem })
}

/// The migrations of a directory listing, oldest first.
pub fn collect_migrations(files: &Vec<ScriptFile>) -> (r: Vec<Migration>)
    ensures
        sorted_by_creation(r@),
        views(r@).to_multiset() == gathered(files@, files@.len() as int).to_multiset(),
{
    let mut found: Vec<Migration> = Vec::new();
    let mut i: usize = 0;
    while i < files.len()
        invariant
            i <= files@.len(),
            views(found@) == gathered(files@, i as int),
        decreases files@.len() - i,
    {
        let ghost before = found@;
        match migration_of(&files[i], files) {
            Some(m) => {
                found.push(m);
                proof {
                    assert(views(found@) =~= views(before).push(m@));
                    assert(views(found@) =~= gathered(files@, i + 1));
                }
            },
            None => {
                proof {
                    assert(views(found@) =~= gathered(files@, i + 1));
                }
            },
        }
        i = i + 1;
    }
    sort_migrations(found)
}

} // verus!
