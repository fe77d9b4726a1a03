//! The launcher's "library folders" manifest: a nested key/value document.
//!
//! The text is parsed by the `steamy_vdf` crate. What comes back is turned,
//! entry for entry, into a tree of this library's own, and everything that is
//! read off a manifest is read off that tree.
//!
//! The parser does not cope with every text. One that ends with a group left
//! open, or that opens very many groups, is found out beforehand and counts
//! as malformed.

use vstd::prelude::*;
use vstd::string::*;
use crate::paths::{join, joined};
use crate::strings::{all_digits, is_all_digits, str_eq, views};

verus! {

/// One entry of a manifest.
#[derive(Debug)]
pub enum VdfEntry {
    /// A group of named entries. In a tree that `load_manifest` returns each
    /// name occurs once; in any tree, a name stands for the first pair that
    /// bears it.
    Table(Vec<(String, VdfEntry)>),
    /// The entries that shared one name.
    Array(Vec<VdfEntry>),
    /// A text that began with `#`.
    Statement(String),
    /// A text.
    Value(String),
}

/// A manifest could not be parsed.
#[derive(Clone, Copy, Debug, PartialEq, Eq, Structural)]
pub struct ConfigMalformed;

/// What a manifest says, apart from the order in which a table keeps its
/// entries.
pub enum VdfDoc {
    /// A group: its entries by name.
    Table(Map<Seq<char>, VdfDoc>),
    /// The entries that shared one name, in order.
    Array(Seq<VdfDoc>),
    /// A text that began with `#`.
    Statement(Seq<char>),
    /// A text.
    Value(Seq<char>),
}

/// No name occurs twice among the pairs.
pub open spec fn names_once(pairs: Seq<(String, VdfEntry)>) -> bool {
    forall|i: int, j: int|
        0 <= i < j < pairs.len() ==> (#[trigger] pairs[i]).0@ != (#[trigger] pairs[j]).0@
}

/// The tree `entry` shows the document `doc`: the same variant and text, the
/// same entries in an array, and in a table the same names, each once, with
/// the same entries under them.
pub open spec fn shows(entry: VdfEntry, doc: VdfDoc) -> bool
    decreases entry,
{
    match entry {
        VdfEntry::Table(pairs) => {
            &&& doc matches VdfDoc::Table(m)
            &&& names_once(pairs@)
            &&& forall|k: Seq<char>|
                m.dom().contains(k) ==> exists|i: int|
                    0 <= i < pairs.len() && (#[trigger] pairs[i]).0@ == k
            &&& forall|i: int|
                0 <= i < pairs.len() ==> m.dom().contains((#[trigger] pairs[i]).0@) && shows(
                    pairs[i].1,
                    m[pairs[i].0@],
                )
        },
        VdfEntry::Array(items) => {
            &&& doc matches VdfDoc::Array(docs)
            &&& docs.len() == items.len()
            &&& forall|i: int| 0 <= i < items.len() ==> shows(#[trigger] items[i], docs[i])
        },
        VdfEntry::Statement(s) => doc == VdfDoc::Statement(s@),
        VdfEntry::Value(s) => doc == VdfDoc::Value(s@),
    }
}

/// The manifest text as the parser hands it back.
#[verifier::external_type_specification]
#[verifier::external_body]
pub struct ExParsedEntry(steamy_vdf::Entry);

/// How deep the groups of a manifest may nest. The parser descends once for
/// each group inside another, so this bounds how deep it can go.
pub const MAX_DEPTH: usize = 256;

/// What the bytes of a manifest text are read as, at some point of the text.
#[derive(Clone, Copy, Debug, PartialEq, Eq, Structural)]
pub enum ScanMode {
    /// Outside any quoted text.
    Plain,
    /// Inside a quoted text.
    Quoted,
    /// Inside a quoted text, right behind a backslash.
    Escape,
    /// Inside a quoted text, in the run of escaped bytes behind a backslash.
    Run,
}

/// Where the reading of a manifest text stands.
pub struct ScanState {
    /// How many groups are open.
    pub depth: nat,
    /// The most groups that were open at once.
    pub deepest: nat,
    /// What the next byte is read as.
    pub mode: ScanMode,
    /// The reading has come to its end before the end of the text: at a
    /// closing brace that closes no group, or at a backslash that escapes
    /// nothing.
    pub ended: bool,
}

/// The bytes that may follow a backslash inside a quoted text: a quote, the
/// letter `n`, a backslash.
pub open spec fn escapable(b: u8) -> bool {
    b == 0x22 || b == 0x6e || b == 0x5c
}

/// Where the reading stands after one more byte. Braces open and close
/// groups outside quoted texts only. Inside a quoted text a backslash
/// escapes the whole run of escapable bytes that follows it, a quote among
/// them included.
pub open spec fn scan_step(s: ScanState, b: u8) -> ScanState {
    if s.ended {
        s
    } else {
        match s.mode {
            ScanMode::Plain => if b == 0x22 {
                ScanState { mode: ScanMode::Quoted, ..s }
            } else if b == 0x7b {
                ScanState {
                    depth: s.depth + 1,
                    deepest: if s.depth + 1 > s.deepest {
                        s.depth + 1
                    } else {
                        s.deepest
                    },
                    ..s
                }
            } else if b == 0x7d {
                if s.depth == 0 {
                    ScanState { ended: true, ..s }
                } else {
                    ScanState { depth: (s.depth - 1) as nat, ..s }
                }
            } else {
                s
            },
            ScanMode::Quoted => if b == 0x22 {
                ScanState { mode: ScanMode::Plain, ..s }
            } else if b == 0x5c {
                ScanState { mode: ScanMode::Escape, ..s }
            } else {
                s
            },
            ScanMode::Escape => if escapable(b) {
                ScanState { mode: ScanMode::Run, ..s }
            } else {
                ScanState { ended: true, ..s }
            },
            ScanMode::Run => if escapable(b) {
                s
            } else {
                ScanState { mode: ScanMode::Quoted, ..s }
            },
        }
    }
}

/// Where the reading stands after the first `n` bytes of a text.
pub open spec fn scan(bytes: Seq<u8>, n: nat) -> ScanState
    decreases n,
{
    if n == 0 || n > bytes.len() {
        ScanState { depth: 0, deepest: 0, mode: ScanMode::Plain, ended: false }
    } else {
        scan_step(scan(bytes, (n - 1) as nat), bytes[n - 1])
    }
}

/// No group is left open where the reading of the text ends.
pub open spec fn groups_closed(bytes: Seq<u8>) -> bool {
    let last = scan(bytes, bytes.len());
    last.ended || last.depth == 0
}

/// The groups of the text nest no deeper than `MAX_DEPTH`.
pub open spec fn nests_within_bound(bytes: Seq<u8>) -> bool {
    scan(bytes, bytes.len()).deepest <= MAX_DEPTH
}

/// The entry that the first pair named `name` holds.
pub open spec fn entry_named(pairs: Seq<(String, VdfEntry)>, name: Seq<char>) -> Option<VdfEntry>
    decreases pairs.len(),
{
    if pairs.len() == 0 {
        None
    } else if pairs[0].0@ == name {
        Some(pairs[0].1)
    } else {
        entry_named(pairs.drop_first(), name)
    }
}

/// The subpath below a library folder where games are installed.
pub open spec fn library_subpath() -> Seq<char> {
    "steamapps/common/"@
}

/// The name of the table that lists the library folders.
pub open spec fn folders_key() -> Seq<char> {
    "LibraryFolders"@
}

/// What one pair of the folders table contributes: for a key made of digits
/// with a text for its value, the games directory below that folder.
pub open spec fn folder_of() -> spec_fn((String, VdfEntry)) -> Option<Seq<char>> {
    |pair: (String, VdfEntry)|
        if all_digits(pair.0@) {
            match pair.1.text() {
                Some(t) => Some(joined(t, library_subpath())),
                None => None,
            }
        } else {
            None
        }
}

/// The pair at place `i` is the first that bears its name.
pub open spec fn first_of_name(pairs: Seq<(String, VdfEntry)>, i: int) -> bool {
    forall|j: int| 0 <= j < i ==> (#[trigger] pairs[j]).0@ != pairs[i].0@
}

/// What the pair at place `i` of the folders table contributes: what its key
/// and value give, where it is the first pair of its name. A name stands for
/// the first pair that bears it, so a later pair of the same name contributes
/// nothing.
pub open spec fn folder_at(pairs: Seq<(String, VdfEntry)>, i: int) -> Option<Seq<char>> {
    if first_of_name(pairs, i) {
        folder_of()(pairs[i])
    } else {
        None
    }
}

/// What the first `n` pairs of the folders table contribute, in order.
pub open spec fn folders_among(pairs: Seq<(String, VdfEntry)>, n: nat) -> Seq<Seq<char>>
    decreases n,
{
    if n == 0 || n > pairs.len() {
        seq![]
    } else {
        match folder_at(pairs, n - 1) {
            Some(dir) => folders_among(pairs, (n - 1) as nat).push(dir),
            None => folders_among(pairs, (n - 1) as nat),
        }
    }
}

/// The games directories that a manifest declares, in the order of its
/// folders table; `None` where it has no such table.
pub open spec fn library_folders(manifest: VdfEntry) -> Option<Seq<Seq<char>>> {
    match manifest.child(folders_key()) {
        Some(VdfEntry::Table(pairs)) => Some(folders_among(pairs@, pairs@.len())),
        _ => None,
    }
}

/// The text of a value or a statement of a document.
pub open spec fn doc_text(doc: VdfDoc) -> Option<Seq<char>> {
    match doc {
        VdfDoc::Statement(s) => Some(s),
        VdfDoc::Value(s) => Some(s),
        _ => None,
    }
}

/// What the entry named `key` of a folders table contributes: for a text,
/// the games directory below the folder that it names.
pub open spec fn folder_in(table: Map<Seq<char>, VdfDoc>, key: Seq<char>) -> Option<Seq<char>> {
    match doc_text(table[key]) {
        Some(t) => Some(joined(t, library_subpath())),
        None => None,
    }
}

/// The games directories that a document declares: one for each name of its
/// folders table that consists of digits and stands for a text. `None` where
/// the document has no such table.
pub open spec fn declared_folders(doc: VdfDoc) -> Option<Set<Seq<char>>> {
    match doc {
        VdfDoc::Table(m) => if m.dom().contains(folders_key()) {
            match m[folders_key()] {
                VdfDoc::Table(t) => Some(
                    Set::new(
                        |dir: Seq<char>|
                            exists|key: Seq<char>|
                                t.dom().contains(key) && all_digits(key) && #[trigger] folder_in(
                                    t,
                                    key,
                                ) == Some(dir),
                    ),
                ),
                _ => None,
            }
        } else {
            None
        },
        _ => None,
    }
}

impl VdfEntry {
    /// The entry that a table holds under `name`.
    pub open spec fn child(self, name: Seq<char>) -> Option<VdfEntry> {
        match self {
            VdfEntry::Table(pairs) => entry_named(pairs@, name),
            _ => None,
        }
    }

    /// The text of a value or a statement.
    pub open spec fn text(self) -> Option<Seq<char>> {
        match self {
            VdfEntry::Statement(s) => Some(s@),
            VdfEntry::Value(s) => Some(s@),
            _ => None,
        }
    }

    /// Looks up the entry named `name` in a table. Anything but a table
    /// holds none.
    pub fn get(&self, name: &str) -> (r: Option<&VdfEntry>)
        ensures
            match r {
                Some(e) => self.child(name@) == Some(*e),
                None => self.child(name@) is None,
            },
    {
        match self {
            VdfEntry::Table(pairs) => {
                let mut i: usize = 0;
                assert(pairs@.skip(0) =~= pairs@);
                while i < pairs.len()
                    invariant
                        i <= pairs.len(),
                        self.child(name@) == entry_named(pairs@.skip(i as int), name@),
                    decreases pairs.len() - i,
                {
                    assert(pairs@.skip(i as int).drop_first() =~= pairs@.skip(i + 1));
                    if str_eq(pairs[i].0.as_str(), name) {
                        return Some(&pairs[i].1);
                    }
                    i = i + 1;
                }
                None
            },
            _ => None,
        }
    }

    /// The pairs of a table.
    pub fn as_table(&self) -> (r: Option<&Vec<(String, VdfEntry)>>)
        ensures
            match r {
                Some(pairs) => *self == VdfEntry::Table(*pairs),
                None => !(self is Table),
            },
    {
        match self {
            VdfEntry::Table(pairs) => Some(pairs),
            _ => None,
        }
    }

    /// The text of a value or a statement.
    pub fn as_str(&self) -> (r: Option<&str>)
        ensures
            match r {
                Some(s) => self.text() == Some(s@),
                None => self.text() is None,
            },
    {
        match self {
            VdfEntry::Statement(s) => Some(s.as_str()),
            VdfEntry::Value(s) => Some(s.as_str()),
            _ => None,
        }
    }
}

/// Finds additional game directories, configured by the user: for each pair
/// of the manifest's folders table whose key consists of digits and whose
/// value is a text, the games directory below the folder that the text names.
/// Other pairs are passed over, and so is a pair whose name an earlier pair
/// bears. `None` where the manifest has no folders table.
pub fn find_steam_dirs_extras(manifest: &VdfEntry) -> (r: Option<Vec<String>>)
    ensures
        match r {
            Some(dirs) => library_folders(*manifest) == Some(views(dirs@)),
            None => library_folders(*manifest) is None,
        },
{
    let pairs = match manifest.get("LibraryFolders") {
        Some(entry) => match entry.as_table() {
            Some(pairs) => pairs,
            None => {
                return None;
            },
        },
        None => {
            return None;
        },
    };
    let mut out: Vec<String> = Vec::new();
    let mut i: usize = 0;
    assert(views(out@) =~= folders_among(pairs@, 0));
    while i < pairs.len()
        invariant
            i <= pairs.len(),
            views(out@) == folders_among(pairs@, i as nat),
        decreases pairs.len() - i,
    {
        let ghost held = views(out@);
        if is_all_digits(pairs[i].0.as_str()) && is_first_of_name(pairs, i) {
            match pairs[i].1.as_str() {
                Some(t) => {
                    out.push(join(t, "steamapps/common/"));
                    assert(views(out@) =~= held.push(joined(t@, library_subpath())));
                },
                None => {},
            }
        }
        i = i + 1;
    }
    Some(out)
}

/// Tells whether the pair at place `i` is the first that bears its name.
fn is_first_of_name(pairs: &Vec<(String, VdfEntry)>, i: usize) -> (r: bool)
    requires
        i < pairs.len(),
    ensures
        r == first_of_name(pairs@, i as int),
{
    let mut j: usize = 0;
    while j < i
        invariant
            j <= i < pairs.len(),
            forall|k: int| 0 <= k < j ==> (#[trigger] pairs@[k]).0@ != pairs@[i as int].0@,
        decreases i - j,
    {
        if str_eq(pairs[j].0.as_str(), pairs[i].0.as_str()) {
            return false;
        }
        j = j + 1;
    }
    true
}

/// The entry found under a name is that of a pair with this name, and none
/// is found only where no pair has the name.
proof fn lemma_entry_named_found(pairs: Seq<(String, VdfEntry)>, name: Seq<char>)
    ensures
        match entry_named(pairs, name) {
            Some(e) => exists|i: int|
                0 <= i < pairs.len() && (#[trigger] pairs[i]).0@ == name && pairs[i].1 == e,
            None => forall|i: int| 0 <= i < pairs.len() ==> (#[trigger] pairs[i]).0@ != name,
        },
    decreases pairs.len(),
{
    if pairs.len() > 0 {
        if pairs[0].0@ == name {
            assert(pairs[0].0@ == name && pairs[0].1 == pairs[0].1);
        } else {
            let rest = pairs.drop_first();
            lemma_entry_named_found(rest, name);
            match entry_named(rest, name) {
                Some(e) => {
                    let i = choose|i: int|
                        0 <= i < rest.len() && (#[trigger] rest[i]).0@ == name && rest[i].1 == e;
                    assert(pairs[i + 1] == rest[i]);
                },
                None => {
                    assert forall|i: int| 0 <= i < pairs.len() implies (#[trigger] pairs[i]).0@
                        != name by {
                        if i > 0 {
                            assert(pairs[i] == rest[i - 1]);
                        }
                    }
                },
            }
        }
    }
}

/// What the first pairs of a folders table contribute is what the single
/// pairs among them contribute.
proof fn lemma_folders_among_holds(pairs: Seq<(String, VdfEntry)>, n: nat, dir: Seq<char>)
    requires
        n <= pairs.len(),
    ensures
        folders_among(pairs, n).contains(dir) <==> exists|j: int|
            0 <= j < n && #[trigger] folder_at(pairs, j) == Some(dir),
    decreases n,
{
    if n > 0 {
        let earlier = folders_among(pairs, (n - 1) as nat);
        lemma_folders_among_holds(pairs, (n - 1) as nat, dir);
        if folders_among(pairs, n).contains(dir) {
            let k = choose|k: int|
                0 <= k < folders_among(pairs, n).len() && folders_among(pairs, n)[k] == dir;
            if k < earlier.len() {
                assert(earlier[k] == dir);
            } else {
                assert(folder_at(pairs, n - 1) == Some(dir));
            }
        }
        if exists|j: int| 0 <= j < n && #[trigger] folder_at(pairs, j) == Some(dir) {
            let j = choose|j: int| 0 <= j < n && #[trigger] folder_at(pairs, j) == Some(dir);
            if j < n - 1 {
                let k = choose|k: int| 0 <= k < earlier.len() && earlier[k] == dir;
                assert(folders_among(pairs, n)[k] == dir);
            } else {
                assert(folders_among(pairs, n)[earlier.len() as int] == dir);
            }
        }
    }
}

/// A tree and the document that it shows have the same text.
proof fn lemma_shows_text(entry: VdfEntry, doc: VdfDoc)
    requires
        shows(entry, doc),
    ensures
        entry.text() == doc_text(doc),
{
}

/// The folders read off a manifest are those that the document declares
/// which it shows: each name of the folders table counts once, whatever the
/// order of the pairs, and names that do not consist of digits contribute
/// nothing.
pub proof fn law_folders_of_document(manifest: VdfEntry, doc: VdfDoc)
    requires
        shows(manifest, doc),
    ensures
        match declared_folders(doc) {
            Some(folders) => library_folders(manifest) matches Some(dirs) && dirs.to_set()
                == folders,
            None => library_folders(manifest) is None,
        },
{
    if let VdfEntry::Table(pairs) = manifest {
        let m = doc->Table_0;
        lemma_entry_named_found(pairs@, folders_key());
        if let Some(e) = entry_named(pairs@, folders_key()) {
            let i = choose|i: int|
                0 <= i < pairs.len() && (#[trigger] pairs@[i]).0@ == folders_key() && pairs@[i].1
                    == e;
            assert(shows(pairs@[i].1, m[pairs@[i].0@]));
            if let VdfEntry::Table(inner) = e {
                let t = m[folders_key()]->Table_0;
                let dirs = folders_among(inner@, inner@.len());
                let folders = declared_folders(doc).unwrap();
                assert forall|j: int| 0 <= j < inner@.len() implies first_of_name(inner@, j) by {
                    assert forall|k: int| 0 <= k < j implies (#[trigger] inner@[k]).0@
                        != inner@[j].0@ by {
                        assert(inner@[k].0@ != inner@[j].0@);
                    }
                }
                assert forall|dir: Seq<char>| dirs.to_set().contains(dir) <==> folders.contains(
                    dir,
                ) by {
                    lemma_folders_among_holds(inner@, inner@.len(), dir);
                    if dirs.contains(dir) {
                        let j = choose|j: int|
                            0 <= j < inner@.len() && #[trigger] folder_at(inner@, j) == Some(dir);
                        assert(shows(inner@[j].1, t[inner@[j].0@]));
                        lemma_shows_text(inner@[j].1, t[inner@[j].0@]);
                        assert(folder_in(t, inner@[j].0@) == Some(dir));
                    }
                    if folders.contains(dir) {
                        let key = choose|key: Seq<char>|
                            t.dom().contains(key) && all_digits(key) && #[trigger] folder_in(
                                t,
                                key,
                            ) == Some(dir);
                        let j = choose|j: int|
                            0 <= j < inner@.len() && (#[trigger] inner@[j]).0@ == key;
                        assert(shows(inner@[j].1, t[inner@[j].0@]));
                        lemma_shows_text(inner@[j].1, t[inner@[j].0@]);
                        assert(first_of_name(inner@, j));
                        assert(folder_at(inner@, j) == Some(dir));
                    }
                }
                assert(dirs.to_set() =~= folders);
            }
        } else {
            assert(!m.dom().contains(folders_key()));
        }
    }
}

/// Tells whether the text may go to the parser: whether its groups nest no
/// deeper than `MAX_DEPTH` and none is left open where its reading ends.
fn fit_to_parse(bytes: &[u8]) -> (r: bool)
    ensures
        r == (nests_within_bound(bytes@) && groups_closed(bytes@)),
{
    let mut depth: usize = 0;
    let mut deepest: usize = 0;
    let mut mode: ScanMode = ScanMode::Plain;
    let mut ended: bool = false;
    let mut i: usize = 0;
    while i < bytes.len()
        invariant
            i <= bytes.len(),
            depth <= deepest <= i,
            scan(bytes@, i as nat) == (ScanState {
                depth: depth as nat,
                deepest: deepest as nat,
                mode,
                ended,
            }),
        decreases bytes.len() - i,
    {
        let b: u8 = bytes[i];
        let escapes: bool = b == 0x22 || b == 0x6e || b == 0x5c;
        if !ended {
            match mode {
                ScanMode::Plain => {
                    if b == 0x22 {
                        mode = ScanMode::Quoted;
                    } else if b == 0x7b {
                        depth = depth + 1;
                        if depth > deepest {
                            deepest = depth;
                        }
                    } else if b == 0x7d {
                        if depth == 0 {
                            ended = true;
                        } else {
                            depth = depth - 1;
                        }
                    }
                },
                ScanMode::Quoted => {
                    if b == 0x22 {
                        mode = ScanMode::Plain;
                    } else if b == 0x5c {
                        mode = ScanMode::Escape;
                    }
                },
                ScanMode::Escape => {
                    if escapes {
                        mode = ScanMode::Run;
                    } else {
                        ended = true;
                    }
                },
                ScanMode::Run => {
                    if !escapes {
                        mode = ScanMode::Quoted;
                    }
                },
            }
        }
        i = i + 1;
    }
    deepest <= MAX_DEPTH && (ended || depth == 0)
}

/// Whether the parser accepts a text: whether `steamy_vdf::Table::load`
/// returns a table when it reads these bytes.
pub uninterp spec fn parses(bytes: Seq<u8>) -> bool;

/// The document that the parser makes of a text: what the table holds that
/// `steamy_vdf::Table::load` returns when it reads these bytes.
pub uninterp spec fn parsed(bytes: Seq<u8>) -> VdfDoc;

/// The document that a parsed entry of `steamy_vdf` holds: its variant, its
/// text, the entries of its array in order, the entries of its table by name.
pub uninterp spec fn held_by(entry: steamy_vdf::Entry) -> VdfDoc;

/// Parses a manifest with `steamy_vdf::read` and `steamy_vdf::Table::load`.
/// Whether they accept the text is given the name `parses`, and the document
/// that they make of it the name `parsed`: the table they build depends on
/// the bytes alone, whatever order its hash map keeps it in. What they return
/// is always a table.
///
/// Two kinds of text are kept from the parser. It calls itself for each group
/// inside another, so the nesting is kept low. And its reader cannot cope
/// with a text that ends inside a group: having met the end of input, it goes
/// on to read for the enclosing group and drops bytes that its buffer no
/// longer holds.
#[verifier::external_body]
fn parse_table(bytes: &[u8]) -> (r: Option<steamy_vdf::Entry>)
    requires
        nests_within_bound(bytes@),
        groups_closed(bytes@),
    ensures
        r is Some == parses(bytes@),
        r matches Some(entry) ==> held_by(entry) == parsed(bytes@) && parsed(bytes@) is Table,
{
    let mut reader = steamy_vdf::read(bytes).ok()?;
    steamy_vdf::Table::load(&mut reader).ok().map(steamy_vdf::Entry::Table)
}

/// Copies a parsed entry of `steamy_vdf` into this library's own tree, variant
/// for variant and pair for pair, entering each group in turn. The copy shows
/// the document that the entry holds. A table of `steamy_vdf` is a hash map,
/// so each name occurs once among the pairs of the copy; their order is the
/// one in which the map hands them out, and nothing is claimed of it.
#[verifier::external_body]
fn to_plain(entry: &steamy_vdf::Entry) -> (r: VdfEntry)
    ensures
        shows(r, held_by(*entry)),
{
    match entry {
        steamy_vdf::Entry::Table(t) => VdfEntry::Table(
            t.iter().map(|(k, v)| (k.clone(), to_plain(v))).collect(),
        ),
        steamy_vdf::Entry::Array(a) => VdfEntry::Array(a.iter().map(to_plain).collect()),
        steamy_vdf::Entry::Statement(s) => VdfEntry::Statement(s.to_string()),
        steamy_vdf::Entry::Value(v) => VdfEntry::Value(v.to_string()),
    }
}

/// Reads a manifest from the bytes of its file. A text that the parser
/// rejects is malformed. So is one whose groups nest deeper than `MAX_DEPTH`,
/// and one that ends with a group left open: neither is handed to the parser
/// at all. The tree of an accepted text shows the document that the parser
/// makes of it: the same entries under the same names, each name once.
pub fn load_manifest(bytes: &[u8]) -> (r: Result<VdfEntry, ConfigMalformed>)
    ensures
        r is Ok <==> nests_within_bound(bytes@) && groups_closed(bytes@) && parses(bytes@),
        r matches Ok(manifest) ==> manifest is Table && shows(manifest, parsed(bytes@)),
{
    if !fit_to_parse(bytes) {
        return Err(ConfigMalformed);
    }
    match parse_table(bytes) {
        Some(entry) => Ok(to_plain(&entry)),
        None => Err(ConfigMalformed),
    }
}

} // verus!
