//! Desktop entries (`.desktop` files) and the application launcher built on
//! them.
use vstd::prelude::*;
use vstd::string::StringExecFns;
use crate::text::{
    chars_of, trim, trim_range, pieces, split_pieces, views_of, Separator, seq_eq, is_white,
    lemma_trim_unchanged, lemma_pieces_last,
};

verus! {

/// An application as a desktop entry describes it.
#[derive(Debug)]
pub struct DesktopEntry {
    pub name: String,
    /// The command line (the `Exec` key).
    pub command: String,
    pub icon: Option<String>,
    pub categories: Vec<String>,
}

/// A desktop entry's fields as text, for contracts.
pub struct EntryView {
    pub name: Seq<char>,
    pub command: Seq<char>,
    pub icon: Option<Seq<char>>,
    pub categories: Seq<Seq<char>>,
}

pub open spec fn strings_view(v: Seq<String>) -> Seq<Seq<char>> {
    v.map_values(|s: String| s@)
}

impl DesktopEntry {
    pub open spec fn view_entry(self) -> EntryView {
        EntryView {
            name: self.name@,
            command: self.command@,
            icon: match self.icon {
                Some(i) => Some(i@),
                None => None,
            },
            categories: strings_view(self.categories@),
        }
    }
}

/// Calls `String::push`, which appends a character to a string.
#[verifier::external_body]
fn push_char(s: &mut String, c: char)
    ensures
        final(s)@ == old(s)@.push(c),
{
    s.push(c)
}

/// The string of the characters `v`.
pub fn string_of(v: &Vec<char>) -> (r: String)
    ensures
        r@ == v@,
{
    let mut s = String::new();
    let mut i: usize = 0;
    while i < v.len()
        invariant
            i <= v@.len(),
            s@ == v@.take(i as int),
        decreases v@.len() - i,
    {
        push_char(&mut s, v[i]);
        i += 1;
        assert(s@ =~= v@.take(i as int));
    }
    assert(v@.take(v@.len() as int) =~= v@);
    s
}

/// The fields gathered while reading a desktop file.
pub struct EntryFields {
    pub name: Option<Seq<char>>,
    pub command: Option<Seq<char>>,
    pub icon: Option<Seq<char>>,
    pub categories: Seq<Seq<char>>,
    /// Set by `NoDisplay=true`: the entry is not to be listed.
    pub hidden: bool,
}

pub open spec fn key_name() -> Seq<char> {
    seq!['N', 'a', 'm', 'e']
}

pub open spec fn key_exec() -> Seq<char> {
    seq!['E', 'x', 'e', 'c']
}

pub open spec fn key_icon() -> Seq<char> {
    seq!['I', 'c', 'o', 'n']
}

pub open spec fn key_categories() -> Seq<char> {
    seq!['C', 'a', 't', 'e', 'g', 'o', 'r', 'i', 'e', 's']
}

pub open spec fn key_no_display() -> Seq<char> {
    seq!['N', 'o', 'D', 'i', 's', 'p', 'l', 'a', 'y']
}

pub open spec fn word_true() -> Seq<char> {
    seq!['t', 'r', 'u', 'e']
}

/// The position of the first `=` in `s`, where there is one.
pub open spec fn first_eq(s: Seq<char>) -> Option<int> {
    if exists|k: int| 0 <= k < s.len() && s[k] == '=' {
        Some(
            choose|k: int|
                0 <= k < s.len() && s[k] == '=' && (forall|j: int| 0 <= j < k ==> s[j] != '='),
        )
    } else {
        None
    }
}

/// One line's effect: blank lines and `#` comments are skipped, as are
/// lines without `=`; otherwise the trimmed text before the first `=` is the
/// key and the text after it the value. `Name`, `Exec` and `Icon` take the
/// trimmed value, `Categories` the non-empty `;`-separated parts of the
/// trimmed value, and `NoDisplay=true` hides the entry. Later lines win.
pub open spec fn apply_line(st: EntryFields, line: Seq<char>) -> EntryFields {
    let t = trim(line);
    if st.hidden || t.len() == 0 || t[0] == '#' {
        st
    } else {
        match first_eq(t) {
            None => st,
            Some(p) => {
                let key = trim(t.take(p));
                let value = trim(t.skip(p + 1));
                if key == key_name() {
                    EntryFields { name: Some(value), ..st }
                } else if key == key_exec() {
                    EntryFields { command: Some(value), ..st }
                } else if key == key_icon() {
                    EntryFields { icon: Some(value), ..st }
                } else if key == key_categories() {
                    EntryFields { categories: pieces(value, Separator::Char(';')), ..st }
                } else if key == key_no_display() && value == word_true() {
                    EntryFields { hidden: true, ..st }
                } else {
                    st
                }
            },
        }
    }
}

pub open spec fn no_fields() -> EntryFields {
    EntryFields { name: None, command: None, icon: None, categories: Seq::empty(), hidden: false }
}

/// The fields after reading `lines` in order.
pub open spec fn read_lines(lines: Seq<Seq<char>>) -> EntryFields
    decreases lines.len(),
{
    if lines.len() == 0 {
        no_fields()
    } else {
        apply_line(read_lines(lines.drop_last()), lines.last())
    }
}

/// The entry a desktop file's text describes: none where it is hidden or
/// lacks a name or a command.
pub open spec fn desktop_entry(content: Seq<char>) -> Option<EntryView> {
    let st = read_lines(pieces(content, Separator::Char('\n')));
    if st.hidden {
        None
    } else {
        match (st.name, st.command) {
            (Some(name), Some(command)) => Some(
                EntryView { name, command, icon: st.icon, categories: st.categories },
            ),
            _ => None,
        }
    }
}

/// Reads a desktop file's text (see [`desktop_entry`]).
pub fn parse_desktop_entry(content: &str) -> (r: Option<DesktopEntry>)
    ensures
        match (r, desktop_entry(content@)) {
            (Some(e), Some(v)) => e.view_entry() == v,
            (None, None) => true,
            _ => false,
        },
{
    let text = chars_of(content);
    let lines = split_pieces(&text, 0, text.len(), Separator::Char('\n'));
    proof {
        assert(text@.subrange(0, text@.len() as int) =~= text@);
    }
    let ghost ls = views_of(lines@);
    let mut name: Option<Vec<char>> = None;
    let mut command: Option<Vec<char>> = None;
    let mut icon: Option<Vec<char>> = None;
    let mut categories: Vec<Vec<char>> = Vec::new();
    let key_name_a = ['N', 'a', 'm', 'e'];
    let key_exec_a = ['E', 'x', 'e', 'c'];
    let key_icon_a = ['I', 'c', 'o', 'n'];
    let key_categories_a = ['C', 'a', 't', 'e', 'g', 'o', 'r', 'i', 'e', 's'];
    let key_no_display_a = ['N', 'o', 'D', 'i', 's', 'p', 'l', 'a', 'y'];
    let word_true_a = ['t', 'r', 'u', 'e'];
    proof {
        assert(key_name_a@ =~= key_name());
        assert(key_exec_a@ =~= key_exec());
        assert(key_icon_a@ =~= key_icon());
        assert(key_categories_a@ =~= key_categories());
        assert(key_no_display_a@ =~= key_no_display());
        assert(word_true_a@ =~= word_true());
        assert(views_of(categories@) =~= Seq::<Seq<char>>::empty());
    }
    let mut li: usize = 0;
    while li < lines.len()
        invariant
            ls == views_of(lines@),
            ls == pieces(content@, Separator::Char('\n')),
            li <= lines@.len(),
            key_name_a@ == key_name(),
            key_exec_a@ == key_exec(),
            key_icon_a@ == key_icon(),
            key_categories_a@ == key_categories(),
            key_no_display_a@ == key_no_display(),
            word_true_a@ == word_true(),
            ({
                let st = read_lines(ls.take(li as int));
                &&& !st.hidden
                &&& st.name == match name {
                    Some(v) => Some(v@),
                    None => None::<Seq<char>>,
                }
                &&& st.command == match command {
                    Some(v) => Some(v@),
                    None => None::<Seq<char>>,
                }
                &&& st.icon == match icon {
                    Some(v) => Some(v@),
                    None => None::<Seq<char>>,
                }
                &&& st.categories == views_of(categories@)
            }),
        decreases lines@.len() - li,
    {
        let ghost before = read_lines(ls.take(li as int));
        proof {
            assert(ls.take(li as int + 1).drop_last() =~= ls.take(li as int));
            assert(ls.take(li as int + 1).last() == lines@[li as int]@);
        }
        let line = &lines[li];
        let t = trim_range(line, 0, line.len());
        proof {
            assert(line@.subrange(0, line@.len() as int) =~= line@);
        }
        li += 1;
        if t.len() == 0 || t[0] == '#' {
            continue;
        }
        let mut p: usize = 0;
        while p < t.len() && t[p] != '='
            invariant
                p <= t@.len(),
                forall|j: int| 0 <= j < p ==> t@[j] != '=',
            decreases t@.len() - p,
        {
            p += 1;
        }
        if p == t.len() {
            continue;
        }
        proof {
            let c = choose|k: int|
                0 <= k < t@.len() && t@[k] == '=' && (forall|j: int| 0 <= j < k ==> t@[j] != '=');
            assert(c == p as int) by {
                if c < p {
                } else if c > p {
                    assert(t@[p as int] == '=');
                }
            }
            assert(first_eq(t@) == Some(p as int));
        }
        let key = trim_range(&t, 0, p);
        let value = trim_range(&t, p + 1, t.len());
        proof {
            assert(t@.subrange(0, p as int) =~= t@.take(p as int));
            assert(t@.subrange(p as int + 1, t@.len() as int) =~= t@.skip(p as int + 1));
        }
        if seq_eq(&key, &key_name_a) {
            name = Some(value);
        } else if seq_eq(&key, &key_exec_a) {
            command = Some(value);
        } else if seq_eq(&key, &key_icon_a) {
            icon = Some(value);
        } else if seq_eq(&key, &key_categories_a) {
            categories = split_pieces(&value, 0, value.len(), Separator::Char(';'));
            proof {
                assert(value@.subrange(0, value@.len() as int) =~= value@);
            }
        } else if seq_eq(&key, &key_no_display_a) && seq_eq(&value, &word_true_a) {
            proof {
                lemma_hidden_stays(ls, li as int);
            }
            return None;
        }
    }
    proof {
        assert(ls.take(lines@.len() as int) =~= ls);
    }
    match (name, command) {
        (Some(n), Some(e)) => {
            let mut cats: Vec<String> = Vec::new();
            let mut k: usize = 0;
            while k < categories.len()
                invariant
                    k <= categories@.len(),
                    cats@.len() == k,
                    strings_view(cats@) == views_of(categories@).take(k as int),
                decreases categories@.len() - k,
            {
                let s = string_of(&categories[k]);
                let ghost old_cats = cats@;
                proof {
                    assert(s@ == views_of(categories@)[k as int]);
                }
                cats.push(s);
                proof {
                    assert(cats@ == old_cats.push(s));
                    assert forall|j: int| 0 <= j < k + 1 implies #[trigger] strings_view(cats@)[j]
                        == views_of(categories@).take(k + 1)[j] by {
                        if j < k {
                            assert(cats@[j] == old_cats[j]);
                            assert(strings_view(old_cats)[j] == views_of(categories@).take(k as int)[j]);
                        }
                    }
                    assert(strings_view(cats@) =~= views_of(categories@).take(k + 1));
                }
                k += 1;
            }
            proof {
                assert(views_of(categories@).take(categories@.len() as int) =~= views_of(categories@));
            }
            let entry = DesktopEntry {
                name: string_of(&n),
                command: string_of(&e),
                icon: match icon {
                    Some(i) => Some(string_of(&i)),
                    None => None,
                },
                categories: cats,
            };
            Some(entry)
        },
        _ => None,
    }
}

/// Once an entry is hidden, further lines keep it hidden.
proof fn lemma_hidden_stays(ls: Seq<Seq<char>>, n: int)
    requires
        0 <= n <= ls.len(),
        read_lines(ls.take(n)).hidden,
    ensures
        read_lines(ls).hidden,
    decreases ls.len() - n,
{
    if n < ls.len() {
        assert(ls.take(n + 1).drop_last() =~= ls.take(n));
        lemma_hidden_stays(ls, n + 1);
    } else {
        assert(ls.take(n) =~= ls);
    }
}

/// What `str::to_lowercase` gives for a text.
pub uninterp spec fn lowercase(s: Seq<char>) -> Seq<char>;

/// Calls `str::to_lowercase`, which maps each character to its Unicode
/// lower-case form. Stated: the result is `lowercase(s)`, and the empty text
/// stays empty. The Unicode mapping itself is left unstated.
#[verifier::external_body]
fn to_lowercase(s: &str) -> (r: String)
    ensures
        r@ == lowercase(s@),
        s@.len() == 0 ==> r@.len() == 0,
{
    s.to_lowercase()
}

/// Whether `n` occurs in `h` as a contiguous part.
pub open spec fn contains_seq(h: Seq<char>, n: Seq<char>) -> bool {
    exists|i: int| 0 <= i <= h.len() - n.len() && #[trigger] h.subrange(i, i + n.len()) == n
}

/// Whether `n` occurs in `h` at position `i`.
fn occurs_at(h: &Vec<char>, n: &Vec<char>, i: usize) -> (r: bool)
    requires
        i + n@.len() <= h@.len(),
    ensures
        r == (h@.subrange(i as int, i + n@.len()) == n@),
{
    let mut k: usize = 0;
    while k < n.len()
        invariant
            i + n@.len() <= h@.len(),
            k <= n@.len(),
            forall|j: int| 0 <= j < k ==> h@[i + j] == n@[j],
        decreases n@.len() - k,
    {
        let hl = h.len();
        assert(i + k < hl);
        if h[i + k] != n[k] {
            proof {
                assert(h@.subrange(i as int, i + n@.len())[k as int] != n@[k as int]);
            }
            return false;
        }
        k += 1;
    }
    assert(h@.subrange(i as int, i + n@.len()) =~= n@);
    true
}

/// Whether `n` occurs in `h` (as `str::contains` decides it).
pub fn contains_chars(h: &Vec<char>, n: &Vec<char>) -> (r: bool)
    ensures
        r == contains_seq(h@, n@),
{
    if n.len() > h.len() {
        return false;
    }
    let last = h.len() - n.len();
    let mut i: usize = 0;
    while i <= last
        invariant
            last == h@.len() - n@.len(),
            n@.len() <= h@.len(),
            i <= last + 1,
            forall|j: int| 0 <= j < i ==> #[trigger] h@.subrange(j, j + n@.len()) != n@,
        decreases last + 1 - i,
    {
        if occurs_at(h, n, i) {
            return true;
        }
        if i == last {
            return false;
        }
        i += 1;
    }
    false
}

/// Whether an entry matches a search: its name contains the query, both
/// lower-cased.
pub open spec fn entry_matches(e: DesktopEntry, query: Seq<char>) -> bool {
    contains_seq(lowercase(e.name@), lowercase(query))
}

/// The entries matching `query`, in order.
pub open spec fn matching(s: Seq<DesktopEntry>, query: Seq<char>) -> Seq<DesktopEntry>
    decreases s.len(),
{
    if s.len() == 0 {
        Seq::empty()
    } else {
        let r = matching(s.drop_last(), query);
        if entry_matches(s.last(), query) {
            r.push(s.last())
        } else {
            r
        }
    }
}

/// Why an application could not be launched.
#[derive(Clone, Copy, Debug, PartialEq, Eq, Structural)]
pub enum LaunchError {
    /// No entry has the name.
    AppNotFound,
    /// The entry's command line is empty.
    NoExecCommand,
}

/// A program and its arguments.
#[derive(Debug)]
pub struct LaunchCommand {
    pub program: String,
    pub args: Vec<String>,
}

/// The position of the entry launched by `name`: the last one whose name
/// equals `name` up to lower case.
pub open spec fn launch_index(s: Seq<DesktopEntry>, name: Seq<char>) -> Option<int> {
    if exists|i: int| 0 <= i < s.len() && lowercase((#[trigger] s[i]).name@) == lowercase(name) {
        Some(
            choose|i: int|
                0 <= i < s.len() && lowercase(s[i].name@) == lowercase(name) && (forall|j: int|
                    i < j < s.len() ==> lowercase((#[trigger] s[j]).name@) != lowercase(name)),
        )
    } else {
        None
    }
}

/// The command launching `name`: the white-space separated words of its
/// entry's command line, the first being the program.
pub open spec fn launch_command(s: Seq<DesktopEntry>, name: Seq<char>) -> Result<
    (Seq<char>, Seq<Seq<char>>),
    LaunchError,
> {
    match launch_index(s, name) {
        None => Err(LaunchError::AppNotFound),
        Some(i) => {
            let words = pieces(s[i].command@, Separator::White);
            if words.len() == 0 {
                Err(LaunchError::NoExecCommand)
            } else {
                Ok((words[0], words.drop_first()))
            }
        },
    }
}

/// The known applications.
pub struct AppLauncher {
    entries: Vec<DesktopEntry>,
}

impl AppLauncher {
    pub closed spec fn spec_entries(&self) -> Seq<DesktopEntry> {
        self.entries@
    }

    /// No applications.
    pub fn new() -> (r: AppLauncher)
        ensures
            r.spec_entries().len() == 0,
    {
        AppLauncher { entries: Vec::new() }
    }

    /// Adds an application read from a desktop file.
    pub fn add_entry(&mut self, entry: DesktopEntry)
        ensures
            final(self).spec_entries() == old(self).spec_entries().push(entry),
    {
        self.entries.push(entry);
    }

    pub fn entries(&self) -> (r: &Vec<DesktopEntry>)
        ensures
            r@ == self.spec_entries(),
    {
        &self.entries
    }

    /// The applications whose name contains `query`, case ignored, in the
    /// order they were added.
    pub fn search(&self, query: &str) -> (r: Vec<&DesktopEntry>)
        ensures
            r@.map_values(|e: &DesktopEntry| *e) == matching(self.spec_entries(), query@),
            query@.len() == 0 ==> r@.map_values(|e: &DesktopEntry| *e) == self.spec_entries(),
    {
        let lower = to_lowercase(query);
        proof {
            if query@.len() == 0 {
                lemma_empty_query_matches_all(self.spec_entries(), query@);
            }
        }
        let q = chars_of(lower.as_str());
        let ghost s = self.entries@;
        let mut r: Vec<&DesktopEntry> = Vec::new();
        let mut i: usize = 0;
        while i < self.entries.len()
            invariant
                s == self.entries@,
                q@ == lowercase(query@),
                i <= s.len(),
                r@.map_values(|e: &DesktopEntry| *e) == matching(s.take(i as int), query@),
            decreases s.len() - i,
        {
            proof {
                assert(s.take(i as int + 1).drop_last() =~= s.take(i as int));
                assert(s.take(i as int + 1).last() == s[i as int]);
            }
            let e = &self.entries[i];
            let name = chars_of(to_lowercase(e.name.as_str()).as_str());
            let ghost before = r@;
            if contains_chars(&name, &q) {
                r.push(e);
                proof {
                    assert(r@.map_values(|e: &DesktopEntry| *e) =~= before.map_values(
                        |e: &DesktopEntry| *e,
                    ).push(*e));
                }
            }
            i += 1;
        }
        proof {
            assert(s.take(s.len() as int) =~= s);
        }
        r
    }

    /// The last position whose entry's lower-cased name is `key`.
    fn last_named(&self, key: &Vec<char>, Ghost(name): Ghost<Seq<char>>) -> (r: Option<usize>)
        requires
            key@ == lowercase(name),
        ensures
            r is None ==> !exists|k: int|
                0 <= k < self.entries@.len() && lowercase((#[trigger] self.entries@[k]).name@)
                    == lowercase(name),
            r matches Some(i) ==> i < self.entries@.len() && lowercase(self.entries@[i as int].name@)
                == lowercase(name) && forall|j: int|
                i < j < self.entries@.len() ==> lowercase((#[trigger] self.entries@[j]).name@)
                    != lowercase(name),
    {
        let mut i: usize = self.entries.len();
        while i > 0
            invariant
                key@ == lowercase(name),
                i <= self.entries@.len(),
                forall|j: int|
                    i <= j < self.entries@.len() ==> lowercase((#[trigger] self.entries@[j]).name@)
                        != lowercase(name),
            decreases i,
        {
            let n = chars_of(to_lowercase(self.entries[i - 1].name.as_str()).as_str());
            if seq_eq(&n, key.as_slice()) {
                return Some(i - 1);
            }
            i -= 1;
        }
        None
    }

    /// The command that launches the application `name` (see
    /// [`launch_command`]).
    pub fn command_for(&self, name: &str) -> (r: Result<LaunchCommand, LaunchError>)
        ensures
            match (r, launch_command(self.spec_entries(), name@)) {
                (Ok(c), Ok((program, args))) => c.program@ == program && strings_view(c.args@)
                    == args,
                (Err(e), Err(f)) => e == f,
                _ => false,
            },
    {
        let key = chars_of(to_lowercase(name).as_str());
        let ghost s = self.entries@;
        let idx = match self.last_named(&key, Ghost(name@)) {
            Some(idx) => idx,
            None => {
                return Err(LaunchError::AppNotFound);
            },
        };
        proof {
            let c = choose|c: int|
                0 <= c < s.len() && lowercase(s[c].name@) == lowercase(name@) && (forall|j: int|
                    c < j < s.len() ==> lowercase((#[trigger] s[j]).name@) != lowercase(name@));
            assert(lowercase(s[idx as int].name@) == lowercase(name@));
            assert(c == idx as int) by {
                if c < idx as int {
                } else if c > idx as int {
                }
            }
        }
        let cmd = chars_of(self.entries[idx].command.as_str());
        let words = split_pieces(&cmd, 0, cmd.len(), Separator::White);
        proof {
            assert(cmd@.subrange(0, cmd@.len() as int) =~= cmd@);
        }
        if words.len() == 0 {
            return Err(LaunchError::NoExecCommand);
        }
        let program = string_of(&words[0]);
        let mut args: Vec<String> = Vec::new();
        let mut k: usize = 1;
        while k < words.len()
            invariant
                1 <= k <= words@.len(),
                args@.len() == k - 1,
                strings_view(args@) == views_of(words@).subrange(1, k as int),
            decreases words@.len() - k,
        {
            let a = string_of(&words[k]);
            let ghost old_args = args@;
            args.push(a);
            proof {
                assert forall|j: int| 0 <= j < k implies #[trigger] strings_view(args@)[j]
                    == views_of(words@).subrange(1, k + 1)[j] by {
                    if j < k - 1 {
                        assert(args@[j] == old_args[j]);
                        assert(strings_view(old_args)[j] == views_of(words@).subrange(1, k as int)[j]);
                    }
                }
                assert(strings_view(args@) =~= views_of(words@).subrange(1, k + 1));
            }
            k += 1;
        }
        proof {
            assert(views_of(words@).subrange(1, words@.len() as int) =~= views_of(words@).drop_first());
        }
        Ok(LaunchCommand { program, args })
    }
}

impl Default for AppLauncher {
    fn default() -> (r: AppLauncher)
        ensures
            r.spec_entries().len() == 0,
    {
        AppLauncher::new()
    }
}

/// A query whose lower-case form is empty matches every application, so a
/// search with it lists them all, in order.
pub proof fn lemma_empty_query_matches_all(s: Seq<DesktopEntry>, query: Seq<char>)
    requires
        lowercase(query).len() == 0,
    ensures
        matching(s, query) == s,
    decreases s.len(),
{
    if s.len() > 0 {
        lemma_empty_query_matches_all(s.drop_last(), query);
        let h = lowercase(s.last().name@);
        assert(h.subrange(0, 0int + lowercase(query).len()) =~= lowercase(query));
        assert(entry_matches(s.last(), query));
        assert(s.drop_last().push(s.last()) =~= s);
    } else {
        assert(matching(s, query) =~= s);
    }
}

/// An occurrence inside an occurrence is an occurrence.
proof fn lemma_contains_trans(h: Seq<char>, m: Seq<char>, n: Seq<char>)
    requires
        contains_seq(h, m),
        contains_seq(m, n),
    ensures
        contains_seq(h, n),
{
    let i = choose|i: int| 0 <= i <= h.len() - m.len() && #[trigger] h.subrange(i, i + m.len()) == m;
    let j = choose|j: int| 0 <= j <= m.len() - n.len() && #[trigger] m.subrange(j, j + n.len()) == n;
    assert(h.subrange(i + j, i + j + n.len()) =~= m.subrange(j, j + n.len()));
}

/// A longer query narrows the search: where the lower-case form of `q1`
/// occurs in that of `q2`, the applications matching `q2` are those of the
/// ones matching `q1` that also match `q2`, in the same order.
pub proof fn lemma_search_narrows(s: Seq<DesktopEntry>, q1: Seq<char>, q2: Seq<char>)
    requires
        contains_seq(lowercase(q2), lowercase(q1)),
    ensures
        matching(s, q2) == matching(matching(s, q1), q2),
    decreases s.len(),
{
    if s.len() > 0 {
        let t = s.drop_last();
        let e = s.last();
        lemma_search_narrows(t, q1, q2);
        if entry_matches(e, q1) {
            let m1 = matching(s, q1);
            assert(m1.drop_last() =~= matching(t, q1));
            assert(m1.last() == e);
        } else {
            if entry_matches(e, q2) {
                lemma_contains_trans(lowercase(e.name@), lowercase(q2), lowercase(q1));
            }
        }
    }
}


/// Whether a text starts and ends with no white space.
pub open spec fn is_trimmed(v: Seq<char>) -> bool {
    v.len() == 0 || (!is_white(v[0]) && !is_white(v.last()))
}

proof fn lemma_key_line(key: Seq<char>, v: Seq<char>)
    requires
        key.len() >= 1,
        !is_white(key[0]),
        !is_white(key.last()),
        forall|j: int| 0 <= j < key.len() ==> key[j] != '=',
        is_trimmed(v),
    ensures
        trim(key + seq!['='] + v) == key + seq!['='] + v,
        first_eq(key + seq!['='] + v) == Some(key.len() as int),
        (key + seq!['='] + v).take(key.len() as int) == key,
        (key + seq!['='] + v).skip(key.len() as int + 1) == v,
        trim(key) == key,
        trim(v) == v,
{
    let l = key + seq!['='] + v;
    let n = key.len() as int;
    assert(l[0] == key[0]);
    if v.len() > 0 {
        assert(l.last() == v.last());
    } else {
        assert(l.last() == '=');
    }
    lemma_trim_unchanged(l);
    lemma_trim_unchanged(key);
    lemma_trim_unchanged(v);
    assert(l[n] == '=');
    assert(forall|j: int| 0 <= j < n ==> l[j] == key[j]);
    let k = choose|k: int| 0 <= k < l.len() && l[k] == '=' && (forall|j: int| 0 <= j < k ==> l[j] != '=');
    assert(0 <= n < l.len() && l[n] == '=' && (forall|j: int| 0 <= j < n ==> l[j] != '='));
    if k < n {
        assert(l[k] == key[k]);
    } else if k > n {
        assert(l[n] != '=');
    }
    assert(l.take(n) =~= key);
    assert(l.skip(n + 1) =~= v);
}

proof fn lemma_apply_exec(st: EntryFields, v: Seq<char>)
    requires
        !st.hidden,
        is_trimmed(v),
    ensures
        apply_line(st, seq!['E', 'x', 'e', 'c', '='] + v) == (EntryFields { command: Some(v), ..st }),
{
    let exec = seq!['E', 'x', 'e', 'c'];
    let l = seq!['E', 'x', 'e', 'c', '='] + v;
    assert(exec + seq!['='] + v =~= l);
    lemma_key_line(exec, v);
    let t = trim(l);
    assert(t == l);
    assert(t.len() > 0 && t[0] != '#');
    assert(first_eq(t) == Some(4int));
}

proof fn lemma_apply_name(st: EntryFields, v: Seq<char>)
    requires
        !st.hidden,
        is_trimmed(v),
    ensures
        apply_line(st, seq!['N', 'a', 'm', 'e', '='] + v) == (EntryFields { name: Some(v), ..st }),
{
    let name = seq!['N', 'a', 'm', 'e'];
    assert(name + seq!['='] + v =~= seq!['N', 'a', 'm', 'e', '='] + v);
    lemma_key_line(name, v);
    assert(name =~= key_name());
}

proof fn lemma_read_push(lines: Seq<Seq<char>>, l: Seq<char>)
    ensures
        read_lines(lines.push(l)) == apply_line(read_lines(lines), l),
{
    assert(lines.push(l).drop_last() =~= lines);
}

/// A later `Exec=` line wins: whatever lines come before (unless they hid
/// the entry), reading a line `Exec=v` sets the command to `v` and keeps the
/// other fields (for a value `v` with no white space at its ends).
pub proof fn lemma_later_exec_wins(lines: Seq<Seq<char>>, v: Seq<char>)
    requires
        !read_lines(lines).hidden,
        is_trimmed(v),
    ensures
        read_lines(lines.push(seq!['E', 'x', 'e', 'c', '='] + v)) == (EntryFields {
            command: Some(v),
            ..read_lines(lines)
        }),
{
    lemma_read_push(lines, seq!['E', 'x', 'e', 'c', '='] + v);
    lemma_apply_exec(read_lines(lines), v);
}

/// A later `Name=` line wins likewise: reading a line `Name=v` sets the name
/// to `v` and keeps the other fields.
pub proof fn lemma_later_name_wins(lines: Seq<Seq<char>>, v: Seq<char>)
    requires
        !read_lines(lines).hidden,
        is_trimmed(v),
    ensures
        read_lines(lines.push(seq!['N', 'a', 'm', 'e', '='] + v)) == (EntryFields {
            name: Some(v),
            ..read_lines(lines)
        }),
{
    lemma_read_push(lines, seq!['N', 'a', 'm', 'e', '='] + v);
    lemma_apply_name(read_lines(lines), v);
}

/// In a desktop file, an `Exec=` line after any text (that does not hide the
/// entry) gives the command: the file's entry, where it has one, runs `v`,
/// and it has one wherever the text before names the application.
pub proof fn lemma_later_exec_line_wins(p: Seq<char>, v: Seq<char>)
    requires
        !read_lines(pieces(p, Separator::Char('\n'))).hidden,
        is_trimmed(v),
        forall|j: int| 0 <= j < v.len() ==> v[j] != '\n',
    ensures
        read_lines(
            pieces(p + seq!['\n'] + seq!['E', 'x', 'e', 'c', '='] + v, Separator::Char('\n')),
        ).command == Some(v),
        desktop_entry(p + seq!['\n'] + seq!['E', 'x', 'e', 'c', '='] + v) matches Some(e) ==> e.command
            == v,
        read_lines(pieces(p, Separator::Char('\n'))).name is Some ==> desktop_entry(
            p + seq!['\n'] + seq!['E', 'x', 'e', 'c', '='] + v,
        ) is Some,
{
    let x = seq!['E', 'x', 'e', 'c', '='] + v;
    assert forall|j: int| 0 <= j < x.len() implies !crate::text::is_sep(Separator::Char('\n'), #[trigger] x[j]) by {
        if j >= 5 {
            assert(x[j] == v[j - 5]);
        }
    }
    lemma_pieces_last(p, '\n', x, Separator::Char('\n'));
    assert(p + seq!['\n'] + seq!['E', 'x', 'e', 'c', '='] + v =~= p + seq!['\n'] + x);
    lemma_later_exec_wins(pieces(p, Separator::Char('\n')), v);
}

/// A `NoDisplay=true` line anywhere in a desktop file hides the entry,
/// whatever comes before or after it.
pub proof fn lemma_no_display_hides(content: Seq<char>, n: int)
    requires
        0 <= n <= pieces(content, Separator::Char('\n')).len(),
        read_lines(pieces(content, Separator::Char('\n')).take(n)).hidden,
    ensures
        desktop_entry(content) is None,
{
    lemma_hidden_stays(pieces(content, Separator::Char('\n')), n);
}

} // verus!
