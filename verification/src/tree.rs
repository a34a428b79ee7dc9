//! Tree payloads: entries `<mode> <name>\0<20 raw identity bytes>`, kept
//! in name order with directories ordered as if their name ended in `/`.

use vstd::prelude::*;
use vstd::slice::slice_subrange;
use crate::backend::{hex_encode, hex_text};
use crate::bytes::{
    append_all, copy_range, find_byte, lemma_position_is, position, range_equals, views_of,
};
use crate::error::GitError;
use crate::object::{decode, decoded, encode, encoded, lemma_decode_inverts_encode, EncodedObject, ObjectKind};

verus! {

/// One entry of a tree.
pub struct TreeEntry {
    /// The mode in ASCII, such as `100644`.
    pub mode: Vec<u8>,
    /// The name of the file or directory.
    pub name: Vec<u8>,
    /// The identity of the blob or tree, as twenty raw bytes.
    pub id: Vec<u8>,
}

/// A tree entry as plain byte strings.
pub struct EntryView {
    pub mode: Seq<u8>,
    pub name: Seq<u8>,
    pub id: Seq<u8>,
}

impl View for TreeEntry {
    type V = EntryView;

    open spec fn view(&self) -> EntryView {
        EntryView { mode: self.mode@, name: self.name@, id: self.id@ }
    }
}

/// The views of a list of entries, in order.
pub open spec fn entry_views(entries: Seq<TreeEntry>) -> Seq<EntryView> {
    Seq::new(entries.len(), |i: int| entries[i]@)
}

/// Mode `100644`: a regular file.
pub open spec fn mode_file() -> Seq<u8> {
    seq![0x31u8, 0x30u8, 0x30u8, 0x36u8, 0x34u8, 0x34u8]
}

/// Mode `100755`: an executable file.
pub open spec fn mode_executable() -> Seq<u8> {
    seq![0x31u8, 0x30u8, 0x30u8, 0x37u8, 0x35u8, 0x35u8]
}

/// Mode `120000`: a symbolic link.
pub open spec fn mode_symlink() -> Seq<u8> {
    seq![0x31u8, 0x32u8, 0x30u8, 0x30u8, 0x30u8, 0x30u8]
}

/// Mode `40000`: a directory.
pub open spec fn mode_directory() -> Seq<u8> {
    seq![0x34u8, 0x30u8, 0x30u8, 0x30u8, 0x30u8]
}

/// Whether `mode` is one of the four permissible modes.
pub open spec fn permissible_mode(mode: Seq<u8>) -> bool {
    mode == mode_file() || mode == mode_executable() || mode == mode_symlink() || mode
        == mode_directory()
}

/// An entry that can be written: a permissible mode, a name that is not
/// empty and holds no zero byte, and an identity of twenty bytes.
pub open spec fn valid_entry(entry: EntryView) -> bool {
    &&& permissible_mode(entry.mode)
    &&& entry.name.len() > 0
    &&& forall|j: int| 0 <= j < entry.name.len() ==> entry.name[j] != 0
    &&& entry.id.len() == 20
}

/// Whether every entry of the list can be written.
pub open spec fn all_valid(entries: Seq<EntryView>) -> bool {
    forall|i: int| 0 <= i < entries.len() ==> valid_entry(#[trigger] entries[i])
}

/// The bytes of one entry: mode, a space, the name, a zero byte, the
/// identity.
pub open spec fn entry_bytes(entry: EntryView) -> Seq<u8> {
    entry.mode + seq![0x20u8] + entry.name + seq![0x00u8] + entry.id
}

/// The payload of a tree with the given entries, in the given order.
pub open spec fn tree_payload(entries: Seq<EntryView>) -> Seq<u8>
    decreases entries.len(),
{
    if entries.len() == 0 {
        Seq::empty()
    } else {
        entry_bytes(entries[0]) + tree_payload(entries.drop_first())
    }
}

/// The key by which entries are ordered: the name, with `/` appended for
/// a directory.
pub open spec fn sort_key(entry: EntryView) -> Seq<u8> {
    if entry.mode == mode_directory() {
        entry.name.push(0x2fu8)
    } else {
        entry.name
    }
}

/// Byte-wise lexicographic order, comparing from index `from` on: `a`
/// comes strictly before `b`.
pub open spec fn bytes_before(a: Seq<u8>, b: Seq<u8>, from: int) -> bool
    decreases a.len() - from,
{
    if from < 0 || from >= b.len() {
        false
    } else if from >= a.len() {
        true
    } else if a[from] != b[from] {
        a[from] < b[from]
    } else {
        bytes_before(a, b, from + 1)
    }
}

/// Whether `x` is ordered strictly before `y`.
pub open spec fn entry_before(x: EntryView, y: EntryView) -> bool {
    bytes_before(sort_key(x), sort_key(y), 0)
}

/// Where `entry` goes into a sorted list: before the first entry, at or
/// after `from`, that it is ordered strictly before.
pub open spec fn insert_position(sorted: Seq<EntryView>, entry: EntryView, from: int) -> int
    decreases sorted.len() - from,
{
    if from < 0 || from >= sorted.len() {
        sorted.len() as int
    } else if entry_before(entry, sorted[from]) {
        from
    } else {
        insert_position(sorted, entry, from + 1)
    }
}

/// The entries in tree order: each entry, from the last to the first, is
/// put into the ordered rest at its position.
pub open spec fn sort_entries(entries: Seq<EntryView>) -> Seq<EntryView>
    decreases entries.len(),
{
    if entries.len() == 0 {
        Seq::empty()
    } else {
        let rest = sort_entries(entries.drop_first());
        rest.insert(insert_position(rest, entries[0], 0), entries[0])
    }
}

/// The first entry of a tree payload and the number of bytes it takes:
/// the mode runs to the first space, the name to the next zero byte, and
/// twenty identity bytes follow.
pub open spec fn first_entry(data: Seq<u8>) -> Option<(EntryView, int)> {
    match position(data, 0, 0x20u8) {
        None => None,
        Some(space) => match position(data, space + 1, 0x00u8) {
            None => None,
            Some(zero) => if zero + 21 > data.len() {
                None
            } else {
                Some(
                    (
                        EntryView {
                            mode: data.subrange(0, space),
                            name: data.subrange(space + 1, zero),
                            id: data.subrange(zero + 1, zero + 21),
                        },
                        zero + 21,
                    ),
                )
            },
        },
    }
}

/// The entries of a tree payload, or `None` where the payload is not a
/// sequence of complete entries.
pub open spec fn parse_tree(data: Seq<u8>) -> Option<Seq<EntryView>>
    decreases data.len(),
{
    if data.len() == 0 {
        Some(Seq::empty())
    } else {
        match first_entry(data) {
            None => None,
            Some((entry, used)) => if used <= 0 || used > data.len() {
                None
            } else {
                match parse_tree(data.subrange(used, data.len() as int)) {
                    None => None,
                    Some(rest) => Some(seq![entry] + rest),
                }
            },
        }
    }
}

/// Whether `mode` is one of the four permissible modes.
pub fn is_permissible_mode(mode: &[u8]) -> (yes: bool)
    ensures
        yes == permissible_mode(mode@),
{
    let file: [u8; 6] = [0x31, 0x30, 0x30, 0x36, 0x34, 0x34];
    let executable: [u8; 6] = [0x31, 0x30, 0x30, 0x37, 0x35, 0x35];
    let symlink: [u8; 6] = [0x31, 0x32, 0x30, 0x30, 0x30, 0x30];
    assert(file@ =~= mode_file());
    assert(executable@ =~= mode_executable());
    assert(symlink@ =~= mode_symlink());
    assert(mode@.subrange(0, mode@.len() as int) =~= mode@);
    range_equals(mode, 0, mode.len(), file.as_slice()) || range_equals(
        mode,
        0,
        mode.len(),
        executable.as_slice(),
    ) || range_equals(mode, 0, mode.len(), symlink.as_slice()) || is_directory_mode(mode)
}

/// Whether `mode` is `40000`.
pub fn is_directory_mode(mode: &[u8]) -> (yes: bool)
    ensures
        yes == (mode@ == mode_directory()),
{
    let directory: [u8; 5] = [0x34, 0x30, 0x30, 0x30, 0x30];
    assert(directory@ =~= mode_directory());
    assert(mode@.subrange(0, mode@.len() as int) =~= mode@);
    range_equals(mode, 0, mode.len(), directory.as_slice())
}

/// Whether an entry can be written.
pub fn is_valid_entry(entry: &TreeEntry) -> (yes: bool)
    ensures
        yes == valid_entry(entry@),
{
    if !is_permissible_mode(entry.mode.as_slice()) {
        return false;
    }
    if entry.name.len() == 0 || entry.id.len() != 20 {
        return false;
    }
    find_byte(entry.name.as_slice(), 0, 0x00).is_none()
}

/// Whether every entry of the list can be written.
pub fn are_valid_entries(entries: &Vec<TreeEntry>) -> (yes: bool)
    ensures
        yes == all_valid(entry_views(entries@)),
{
    let mut i: usize = 0;
    while i < entries.len()
        invariant
            0 <= i <= entries@.len(),
            forall|j: int| 0 <= j < i ==> valid_entry(#[trigger] entry_views(entries@)[j]),
        decreases entries@.len() - i,
    {
        if !is_valid_entry(&entries[i]) {
            assert(!valid_entry(entry_views(entries@)[i as int]));
            return false;
        }
        i += 1;
    }
    true
}

/// The ordering key of an entry.
pub fn sort_key_bytes(entry: &TreeEntry) -> (key: Vec<u8>)
    ensures
        key@ == sort_key(entry@),
{
    let mut key: Vec<u8> = Vec::new();
    append_all(&mut key, entry.name.as_slice());
    if is_directory_mode(entry.mode.as_slice()) {
        key.push(0x2f);
    }
    key
}

/// Whether `a` comes strictly before `b` in byte-wise order.
pub fn bytes_less(a: &[u8], b: &[u8]) -> (yes: bool)
    ensures
        yes == bytes_before(a@, b@, 0),
{
    let mut i: usize = 0;
    while i < a.len() && i < b.len()
        invariant
            bytes_before(a@, b@, 0) == bytes_before(a@, b@, i as int),
        decreases a@.len() - i,
    {
        if a[i] != b[i] {
            return a[i] < b[i];
        }
        i += 1;
    }
    i < b.len()
}

/// Whether `x` is ordered strictly before `y` in a tree.
pub fn is_entry_before(x: &TreeEntry, y: &TreeEntry) -> (yes: bool)
    ensures
        yes == entry_before(x@, y@),
{
    let kx = sort_key_bytes(x);
    let ky = sort_key_bytes(y);
    bytes_less(kx.as_slice(), ky.as_slice())
}

/// Puts the entries into tree order.
pub fn sort_tree_entries(entries: Vec<TreeEntry>) -> (sorted: Vec<TreeEntry>)
    ensures
        entry_views(sorted@) == sort_entries(entry_views(entries@)),
{
    let ghost all = entry_views(entries@);
    let mut rest = entries;
    let mut sorted: Vec<TreeEntry> = Vec::new();
    assert(all.subrange(all.len() as int, all.len() as int) =~= Seq::empty());
    assert(entry_views(sorted@) =~= Seq::empty());
    while rest.len() > 0
        invariant
            rest@.len() <= all.len(),
            entry_views(rest@) == all.subrange(0, rest@.len() as int),
            entry_views(sorted@) == sort_entries(all.subrange(rest@.len() as int, all.len() as int)),
        decreases rest@.len(),
    {
        let ghost before_rest = rest@;
        let ghost before_sorted = entry_views(sorted@);
        let entry = match rest.pop() {
            Some(entry) => entry,
            None => { return sorted; },
        };
        assert(entry@ == entry_views(before_rest)[before_rest.len() - 1]);
        let mut at: usize = 0;
        while at < sorted.len() && !is_entry_before(&entry, &sorted[at])
            invariant
                at <= sorted@.len(),
                before_sorted == entry_views(sorted@),
                insert_position(before_sorted, entry@, 0) == insert_position(
                    before_sorted,
                    entry@,
                    at as int,
                ),
            decreases sorted@.len() - at,
        {
            at += 1;
        }
        sorted.insert(at, entry);
        proof {
            let tail = all.subrange(before_rest.len() - 1, all.len() as int);
            assert(tail.drop_first() =~= all.subrange(before_rest.len() as int, all.len() as int));
            assert(tail[0] == entry@);
            assert(entry_views(sorted@) =~= before_sorted.insert(at as int, entry@));
            assert(entry_views(rest@) =~= all.subrange(0, rest@.len() as int));
        }
    }
    assert(all.subrange(0, all.len() as int) =~= all);
    sorted
}

/// Writes out the payload of a tree with the given entries, in the given
/// order.
pub fn serialize_tree(entries: &Vec<TreeEntry>) -> (payload: Vec<u8>)
    ensures
        payload@ == tree_payload(entry_views(entries@)),
{
    let ghost all = entry_views(entries@);
    let mut payload: Vec<u8> = Vec::new();
    let mut i: usize = 0;
    assert(all.subrange(0, all.len() as int) =~= all);
    while i < entries.len()
        invariant
            0 <= i <= entries@.len(),
            all == entry_views(entries@),
            tree_payload(all) == payload@ + tree_payload(all.subrange(i as int, all.len() as int)),
        decreases entries@.len() - i,
    {
        let ghost before = payload@;
        let entry = &entries[i];
        append_all(&mut payload, entry.mode.as_slice());
        payload.push(0x20);
        append_all(&mut payload, entry.name.as_slice());
        payload.push(0x00);
        append_all(&mut payload, entry.id.as_slice());
        proof {
            let tail = all.subrange(i as int, all.len() as int);
            assert(tail[0] == entry@);
            assert(tail.drop_first() =~= all.subrange(i + 1, all.len() as int));
            assert(payload@ =~= before + entry_bytes(entry@));
            assert(tree_payload(all) =~= payload@ + tree_payload(tail.drop_first()));
        }
        i += 1;
    }
    assert(tree_payload(all) =~= payload@);
    payload
}

/// What writing the tree of valid entries may return: the encoding of the
/// payload of the entries in tree order, or `Io` where the compressor
/// fails on it.
pub open spec fn tree_written(
    entries: Seq<EntryView>,
    r: Result<EncodedObject, GitError>,
) -> bool {
    encoded(ObjectKind::Tree, tree_payload(sort_entries(entries)), r)
}

/// Builds the tree object for the entries of one directory.
///
/// The entries are put into tree order and written out as a payload, and
/// the payload is encoded as a tree. Entries that cannot be written make
/// the call fail with `MalformedTree`; otherwise it fails with `Io`
/// exactly where the compressor fails on the tree's canonical form.
pub fn write_tree(entries: Vec<TreeEntry>) -> (r: Result<EncodedObject, GitError>)
    ensures
        !all_valid(entry_views(entries@)) ==> r == Err::<EncodedObject, GitError>(
            GitError::MalformedTree,
        ),
        all_valid(entry_views(entries@)) ==> tree_written(entry_views(entries@), r),
{
    if !are_valid_entries(&entries) {
        return Err(GitError::MalformedTree);
    }
    let sorted = sort_tree_entries(entries);
    let payload = serialize_tree(&sorted);
    encode(ObjectKind::Tree, payload.as_slice())
}

/// Reads the first entry of a tree payload.
pub fn read_entry(data: &[u8]) -> (r: Option<(TreeEntry, usize)>)
    ensures
        r matches Some((entry, used)) ==> first_entry(data@) == Some((entry@, used as int)) && 0
            < used <= data@.len(),
        r is None ==> first_entry(data@) is None,
{
    let total: usize = data.len();
    let space: usize = match find_byte(data, 0, 0x20) {
        None => { return None; },
        Some(at) => at,
    };
    let zero: usize = match find_byte(data, space + 1, 0x00) {
        None => { return None; },
        Some(at) => at,
    };
    if total - zero < 21 {
        return None;
    }
    let entry = TreeEntry {
        mode: copy_range(data, 0, space),
        name: copy_range(data, space + 1, zero),
        id: copy_range(data, zero + 1, zero + 21),
    };
    Some((entry, zero + 21))
}

/// The entries read so far followed by the entries of the rest, where the
/// rest can be read.
pub open spec fn join(done: Seq<EntryView>, rest: Option<Seq<EntryView>>) -> Option<
    Seq<EntryView>,
> {
    match rest {
        None => None,
        Some(more) => Some(done + more),
    }
}

/// Reads the entries of a tree payload, in order; `MalformedTree` where
/// the payload is not a sequence of complete entries.
pub fn tree_entries(payload: &[u8]) -> (r: Result<Vec<TreeEntry>, GitError>)
    ensures
        r matches Ok(entries) ==> parse_tree(payload@) == Some(entry_views(entries@)),
        r matches Err(e) ==> e == GitError::MalformedTree && parse_tree(payload@) is None,
{
    let mut entries: Vec<TreeEntry> = Vec::new();
    let mut pos: usize = 0;
    assert(payload@.subrange(0, payload@.len() as int) =~= payload@);
    assert(entry_views(entries@) =~= Seq::empty());
    while pos < payload.len()
        invariant
            pos <= payload@.len(),
            parse_tree(payload@) == join(
                entry_views(entries@),
                parse_tree(payload@.subrange(pos as int, payload@.len() as int)),
            ),
        decreases payload@.len() - pos,
    {
        let ghost before = entry_views(entries@);
        let ghost rest = payload@.subrange(pos as int, payload@.len() as int);
        match read_entry(slice_subrange(payload, pos, payload.len())) {
            None => { return Err(GitError::MalformedTree); },
            Some((entry, used)) => {
                proof {
                    assert(rest.subrange(used as int, rest.len() as int) =~= payload@.subrange(
                        pos + used,
                        payload@.len() as int,
                    ));
                    let after = parse_tree(payload@.subrange(pos + used, payload@.len() as int));
                    if after is Some {
                        assert(before + (seq![entry@] + after.unwrap()) =~= before.push(entry@)
                            + after.unwrap());
                    }
                }
                entries.push(entry);
                assert(entry_views(entries@) =~= before.push(entry@));
                pos = pos + used;
            },
        }
    }
    assert(entry_views(entries@) + Seq::<EntryView>::empty() =~= entry_views(entries@));
    Ok(entries)
}

/// The names of a list of entries, in order.
pub open spec fn names_of(entries: Seq<EntryView>) -> Seq<Seq<u8>> {
    Seq::new(entries.len(), |i: int| entries[i].name)
}

/// The entries of a stored tree: the buffer must decode to an object of
/// kind tree whose payload is a sequence of complete entries.
pub open spec fn stored_tree(compressed: Seq<u8>) -> Result<Seq<EntryView>, GitError> {
    match decoded(compressed) {
        None => Err(GitError::MalformedObject),
        Some((kind, payload)) => if kind != ObjectKind::Tree {
            Err(GitError::MalformedTree)
        } else {
            match parse_tree(payload) {
                None => Err(GitError::MalformedTree),
                Some(entries) => Ok(entries),
            }
        },
    }
}

/// Decodes a stored tree and reads its entries.
pub fn read_tree(compressed: &[u8]) -> (r: Result<Vec<TreeEntry>, GitError>)
    ensures
        r matches Ok(entries) ==> stored_tree(compressed@) == Ok::<_, GitError>(
            entry_views(entries@),
        ),
        r matches Err(e) ==> stored_tree(compressed@) == Err::<Seq<EntryView>, _>(e),
{
    match decode(compressed) {
        Err(_) => Err(GitError::MalformedObject),
        Ok((kind, payload)) => {
            match kind {
                ObjectKind::Tree => tree_entries(payload.as_slice()),
                _ => Err(GitError::MalformedTree),
            }
        },
    }
}

/// The names of the entries of a stored tree, in the order in which the
/// tree holds them.
pub fn list_tree_names(compressed: &[u8]) -> (r: Result<Vec<Vec<u8>>, GitError>)
    ensures
        r matches Ok(names) ==> (stored_tree(compressed@) matches Ok(entries) && views_of(names@)
            == names_of(entries)),
        r matches Err(e) ==> stored_tree(compressed@) == Err::<Seq<EntryView>, _>(e),
{
    let entries = match read_tree(compressed) {
        Err(e) => { return Err(e); },
        Ok(entries) => entries,
    };
    let mut names: Vec<Vec<u8>> = Vec::new();
    let mut i: usize = 0;
    while i < entries.len()
        invariant
            0 <= i <= entries@.len(),
            names@.len() == i,
            forall|j: int| 0 <= j < i ==> (#[trigger] names@[j])@ == entries@[j].name@,
        decreases entries@.len() - i,
    {
        let name = copy_range(entries[i].name.as_slice(), 0, entries[i].name.len());
        assert(entries@[i as int].name@.subrange(0, entries@[i as int].name@.len() as int)
            =~= entries@[i as int].name@);
        names.push(name);
        i += 1;
    }
    assert(views_of(names@) =~= names_of(entry_views(entries@)));
    Ok(names)
}

/// What the materializer does with an entry.
#[derive(Clone, Copy, Debug, PartialEq, Eq, Structural)]
pub enum EntryAction {
    /// Write the blob to a file; `executable` says whether to set the
    /// executable bit.
    WriteFile { executable: bool },
    /// Create the directory and materialize the tree in it.
    Descend,
    /// Leave the entry out.
    Skip,
}

/// The action for a mode: `100644` and `100755` are files, `40000` is a
/// directory, and every other mode is left out.
pub open spec fn action_for(mode: Seq<u8>) -> EntryAction {
    if mode == mode_file() {
        EntryAction::WriteFile { executable: false }
    } else if mode == mode_executable() {
        EntryAction::WriteFile { executable: true }
    } else if mode == mode_directory() {
        EntryAction::Descend
    } else {
        EntryAction::Skip
    }
}

/// One step of materializing a tree: what to do, under which name, with
/// the object of which identity.
pub struct RenderStep {
    pub action: EntryAction,
    pub name: Vec<u8>,
    /// The identity of the blob or tree, as hexadecimal text.
    pub id: Vec<u8>,
}

impl RenderStep {
    /// Whether this is the step for `entry`.
    pub open spec fn renders(&self, entry: EntryView) -> bool {
        &&& self.action == action_for(entry.mode)
        &&& self.name@ == entry.name
        &&& self.id@ == hex_text(entry.id)
    }
}

/// The steps that materialize one stored tree in a directory: one step
/// per entry, in the order of the entries.
pub fn render_tree(compressed: &[u8]) -> (r: Result<Vec<RenderStep>, GitError>)
    ensures
        r matches Ok(steps) ==> (stored_tree(compressed@) matches Ok(entries) && steps@.len()
            == entries.len() && forall|i: int|
            0 <= i < steps@.len() ==> (#[trigger] steps@[i]).renders(entries[i])),
        r matches Err(e) ==> stored_tree(compressed@) == Err::<Seq<EntryView>, _>(e),
{
    let entries = match read_tree(compressed) {
        Err(e) => { return Err(e); },
        Ok(entries) => entries,
    };
    let mut steps: Vec<RenderStep> = Vec::new();
    let mut i: usize = 0;
    while i < entries.len()
        invariant
            0 <= i <= entries@.len(),
            steps@.len() == i,
            forall|j: int| 0 <= j < i ==> (#[trigger] steps@[j]).renders(entries@[j]@),
        decreases entries@.len() - i,
    {
        let entry = &entries[i];
        let action = entry_action(entry.mode.as_slice());
        let name = copy_range(entry.name.as_slice(), 0, entry.name.len());
        assert(entry.name@.subrange(0, entry.name@.len() as int) =~= entry.name@);
        let id = hex_encode(entry.id.as_slice());
        steps.push(RenderStep { action, name, id });
        i += 1;
    }
    Ok(steps)
}

/// The action for a mode.
pub fn entry_action(mode: &[u8]) -> (action: EntryAction)
    ensures
        action == action_for(mode@),
{
    let file: [u8; 6] = [0x31, 0x30, 0x30, 0x36, 0x34, 0x34];
    let executable: [u8; 6] = [0x31, 0x30, 0x30, 0x37, 0x35, 0x35];
    assert(file@ =~= mode_file());
    assert(executable@ =~= mode_executable());
    assert(mode@.subrange(0, mode@.len() as int) =~= mode@);
    if range_equals(mode, 0, mode.len(), file.as_slice()) {
        EntryAction::WriteFile { executable: false }
    } else if range_equals(mode, 0, mode.len(), executable.as_slice()) {
        EntryAction::WriteFile { executable: true }
    } else if is_directory_mode(mode) {
        EntryAction::Descend
    } else {
        EntryAction::Skip
    }
}

/// No permissible mode holds a space.
pub proof fn lemma_mode_has_no_space(mode: Seq<u8>)
    requires
        permissible_mode(mode),
    ensures
        5 <= mode.len() <= 6,
        forall|j: int| 0 <= j < mode.len() ==> mode[j] != 0x20u8,
{
}

/// Reading a payload that was written from valid entries gives the
/// entries back, in the same order.
pub proof fn lemma_parse_inverts_payload(entries: Seq<EntryView>)
    requires
        all_valid(entries),
    ensures
        parse_tree(tree_payload(entries)) == Some(entries),
    decreases entries.len(),
{
    if entries.len() > 0 {
        let entry = entries[0];
        let rest = entries.drop_first();
        let data = tree_payload(entries);
        let tail = tree_payload(rest);
        let space = entry.mode.len() as int;
        let zero = space + 1 + entry.name.len();
        assert(valid_entry(entry));
        lemma_mode_has_no_space(entry.mode);
        assert(data == entry_bytes(entry) + tail);
        assert(entry_bytes(entry).len() == zero + 21);
        assert forall|j: int| 0 <= j < space implies data[j] != 0x20u8 by {
            assert(data[j] == entry.mode[j]);
        }
        assert(data[space] == 0x20u8);
        lemma_position_is(data, 0, 0x20u8, space);
        assert forall|j: int| space + 1 <= j < zero implies data[j] != 0x00u8 by {
            assert(data[j] == entry.name[j - space - 1]);
        }
        assert(data[zero] == 0x00u8);
        lemma_position_is(data, space + 1, 0x00u8, zero);
        assert(data.subrange(0, space) =~= entry.mode);
        assert(data.subrange(space + 1, zero) =~= entry.name);
        assert(data.subrange(zero + 1, zero + 21) =~= entry.id);
        assert(first_entry(data) == Some((entry, zero + 21)));
        assert(data.subrange(zero + 21, data.len() as int) =~= tail);
        assert forall|i: int| 0 <= i < rest.len() implies valid_entry(#[trigger] rest[i]) by {
            assert(rest[i] == entries[i + 1]);
        }
        lemma_parse_inverts_payload(rest);
        assert(seq![entry] + rest =~= entries);
    }
}

/// Ordering the entries neither drops nor adds nor repeats one: the
/// ordered list holds each entry as often as the given list does.
pub proof fn lemma_sort_keeps_entries(entries: Seq<EntryView>)
    ensures
        sort_entries(entries).to_multiset() == entries.to_multiset(),
        sort_entries(entries).len() == entries.len(),
    decreases entries.len(),
{
    broadcast use vstd::seq_lib::to_multiset_insert;

    if entries.len() == 0 {
        assert(sort_entries(entries) =~= entries);
    } else {
        let rest = sort_entries(entries.drop_first());
        lemma_sort_keeps_entries(entries.drop_first());
        let at = insert_position(rest, entries[0], 0);
        lemma_insert_position_bounds(rest, entries[0], 0);
        assert(entries =~= entries.drop_first().insert(0, entries[0]));
        assert(rest.insert(at, entries[0]).to_multiset() == rest.to_multiset().insert(entries[0]));
        assert(entries.drop_first().insert(0, entries[0]).to_multiset()
            == entries.drop_first().to_multiset().insert(entries[0]));
    }
}

/// The position at which an entry is put lies within the list, no entry
/// before it is ordered after the new one, and the entry at it is.
pub proof fn lemma_insert_position_bounds(sorted: Seq<EntryView>, entry: EntryView, from: int)
    requires
        0 <= from <= sorted.len(),
    ensures
        from <= insert_position(sorted, entry, from) <= sorted.len(),
        forall|k: int|
            from <= k < insert_position(sorted, entry, from) ==> !entry_before(
                entry,
                #[trigger] sorted[k],
            ),
        insert_position(sorted, entry, from) < sorted.len() ==> entry_before(
            entry,
            sorted[insert_position(sorted, entry, from)],
        ),
    decreases sorted.len() - from,
{
    if from < sorted.len() && !entry_before(entry, sorted[from]) {
        lemma_insert_position_bounds(sorted, entry, from + 1);
    }
}

/// The byte-wise order is transitive.
pub proof fn lemma_bytes_before_transitive(a: Seq<u8>, b: Seq<u8>, c: Seq<u8>, from: int)
    requires
        0 <= from,
        bytes_before(a, b, from),
        bytes_before(b, c, from),
    ensures
        bytes_before(a, c, from),
    decreases a.len() - from,
{
    if from < a.len() && from < b.len() && from < c.len() && a[from] == b[from] && b[from]
        == c[from] {
        lemma_bytes_before_transitive(a, b, c, from + 1);
    }
}

/// The byte-wise order is asymmetric: of two byte strings at most one
/// comes before the other.
pub proof fn lemma_bytes_before_asymmetric(a: Seq<u8>, b: Seq<u8>, from: int)
    requires
        0 <= from,
        bytes_before(a, b, from),
    ensures
        !bytes_before(b, a, from),
    decreases a.len() - from,
{
    if from < a.len() && from < b.len() && a[from] == b[from] {
        lemma_bytes_before_asymmetric(a, b, from + 1);
    }
}

/// A list in tree order: no entry is ordered strictly before an earlier
/// one.
pub open spec fn in_tree_order(entries: Seq<EntryView>) -> bool {
    forall|i: int, j: int|
        0 <= i < j < entries.len() ==> !entry_before(#[trigger] entries[j], #[trigger] entries[i])
}

/// What [`sort_entries`] returns is in tree order.
pub proof fn lemma_sort_orders(entries: Seq<EntryView>)
    ensures
        in_tree_order(sort_entries(entries)),
    decreases entries.len(),
{
    if entries.len() > 0 {
        let rest = sort_entries(entries.drop_first());
        let entry = entries[0];
        lemma_sort_orders(entries.drop_first());
        let at = insert_position(rest, entry, 0);
        lemma_insert_position_bounds(rest, entry, 0);
        let out = rest.insert(at, entry);
        assert forall|i: int, j: int| 0 <= i < j < out.len() implies !entry_before(
            #[trigger] out[j],
            #[trigger] out[i],
        ) by {
            if j == at {
                assert(out[i] == rest[i]);
                assert(!entry_before(entry, rest[i]));
            } else if i == at {
                assert(out[j] == rest[j - 1]);
                if entry_before(rest[j - 1], entry) {
                    lemma_bytes_before_transitive(
                        sort_key(rest[j - 1]),
                        sort_key(entry),
                        sort_key(rest[at]),
                        0,
                    );
                    if j - 1 == at {
                        lemma_bytes_before_asymmetric(sort_key(rest[at]), sort_key(rest[at]), 0);
                    } else {
                        assert(!entry_before(rest[j - 1], rest[at]));
                    }
                }
            } else {
                let i0 = if i < at { i } else { i - 1 };
                let j0 = if j < at { j } else { j - 1 };
                assert(out[i] == rest[i0]);
                assert(out[j] == rest[j0]);
            }
        }
    }
}

/// Two byte strings of which neither comes before the other agree from
/// `from` on.
pub proof fn lemma_bytes_before_total(a: Seq<u8>, b: Seq<u8>, from: int)
    requires
        0 <= from <= a.len(),
        from <= b.len(),
        !bytes_before(a, b, from),
        !bytes_before(b, a, from),
    ensures
        a.len() == b.len(),
        forall|k: int| from <= k < a.len() ==> a[k] == b[k],
    decreases a.len() - from,
{
    if from < a.len() && from < b.len() {
        lemma_bytes_before_total(a, b, from + 1);
    }
}

/// No two entries of the list have the same ordering key.
pub open spec fn distinct_keys(entries: Seq<EntryView>) -> bool {
    forall|i: int, j: int|
        0 <= i < j < entries.len() ==> sort_key(#[trigger] entries[i]) != sort_key(
            #[trigger] entries[j],
        )
}

/// A list that holds the same entries as one with distinct keys has
/// distinct keys too.
pub proof fn lemma_distinct_keys_carry_over(first: Seq<EntryView>, second: Seq<EntryView>)
    requires
        first.to_multiset() == second.to_multiset(),
        distinct_keys(first),
    ensures
        distinct_keys(second),
{
    broadcast use vstd::seq_lib::to_multiset_contains;

    assert(first.no_duplicates()) by {
        assert forall|i: int, j: int|
            0 <= i < first.len() && 0 <= j < first.len() && i != j implies first[i] != first[j] by {
            if i < j {
                assert(sort_key(first[i]) != sort_key(first[j]));
            } else {
                assert(sort_key(first[j]) != sort_key(first[i]));
            }
        }
    }
    first.lemma_multiset_has_no_duplicates();
    second.lemma_multiset_has_no_duplicates_conv();
    assert forall|i: int, j: int| 0 <= i < j < second.len() implies sort_key(
        #[trigger] second[i],
    ) != sort_key(#[trigger] second[j]) by {
        let x = second[i];
        let y = second[j];
        assert(x != y);
        assert(second.contains(x));
        assert(second.contains(y));
        assert(first.to_multiset().count(x) > 0);
        assert(first.to_multiset().count(y) > 0);
        assert(first.contains(x));
        assert(first.contains(y));
        let a = choose|a: int| 0 <= a < first.len() && first[a] == x;
        let b = choose|b: int| 0 <= b < first.len() && first[b] == y;
        if a < b {
            assert(sort_key(first[a]) != sort_key(first[b]));
        } else {
            assert(sort_key(first[b]) != sort_key(first[a]));
        }
    }
}

/// Two lists in tree order that hold the same entries, with distinct
/// keys, are the same list.
pub proof fn lemma_tree_order_is_unique(first: Seq<EntryView>, second: Seq<EntryView>)
    requires
        first.to_multiset() == second.to_multiset(),
        distinct_keys(first),
        distinct_keys(second),
        in_tree_order(first),
        in_tree_order(second),
    ensures
        first == second,
    decreases first.len(),
{
    broadcast use vstd::seq_lib::to_multiset_contains;
    broadcast use vstd::seq_lib::to_multiset_len;
    broadcast use vstd::seq_lib::to_multiset_remove;

    assert(first.len() == second.len()) by {
        vstd::seq_lib::to_multiset_len(first);
        vstd::seq_lib::to_multiset_len(second);
    }
    if first.len() == 0 {
        assert(first =~= second);
    } else {
        let x = first[0];
        let y = second[0];
        assert(first.contains(x));
        assert(second.contains(y));
        assert(second.to_multiset().count(x) > 0);
        assert(first.to_multiset().count(y) > 0);
        assert(second.contains(x));
        assert(first.contains(y));
        let j = choose|j: int| 0 <= j < second.len() && second[j] == x;
        let i = choose|i: int| 0 <= i < first.len() && first[i] == y;
        if i > 0 && j > 0 {
            assert(!entry_before(second[j], second[0]));
            assert(!entry_before(first[i], first[0]));
            lemma_bytes_before_total(sort_key(x), sort_key(y), 0);
            assert(sort_key(x) =~= sort_key(y));
            assert(sort_key(first[0]) != sort_key(first[i]));
        }
        assert(x == y);
        let first_rest = first.drop_first();
        let second_rest = second.drop_first();
        assert(first.remove(0) =~= first_rest);
        assert(second.remove(0) =~= second_rest);
        assert(first_rest.to_multiset() == second_rest.to_multiset());
        assert forall|a: int, b: int| 0 <= a < b < first_rest.len() implies sort_key(
            #[trigger] first_rest[a],
        ) != sort_key(#[trigger] first_rest[b]) && !entry_before(first_rest[b], first_rest[a]) by {
            assert(first_rest[a] == first[a + 1]);
            assert(first_rest[b] == first[b + 1]);
        }
        assert forall|a: int, b: int| 0 <= a < b < second_rest.len() implies sort_key(
            #[trigger] second_rest[a],
        ) != sort_key(#[trigger] second_rest[b]) && !entry_before(
            second_rest[b],
            second_rest[a],
        ) by {
            assert(second_rest[a] == second[a + 1]);
            assert(second_rest[b] == second[b + 1]);
        }
        lemma_tree_order_is_unique(first_rest, second_rest);
        assert(first =~= seq![x] + first_rest);
        assert(second =~= seq![y] + second_rest);
    }
}

/// The order in which a directory is listed does not matter: two listings
/// that hold the same entries, no two of them with the same key, give the
/// same ordered list and so the same tree payload.
pub proof fn lemma_listing_order_is_irrelevant(first: Seq<EntryView>, second: Seq<EntryView>)
    requires
        first.to_multiset() == second.to_multiset(),
        distinct_keys(first),
    ensures
        sort_entries(first) == sort_entries(second),
        tree_payload(sort_entries(first)) == tree_payload(sort_entries(second)),
{
    lemma_sort_keeps_entries(first);
    lemma_sort_keeps_entries(second);
    lemma_sort_orders(first);
    lemma_sort_orders(second);
    lemma_distinct_keys_carry_over(first, sort_entries(first));
    lemma_distinct_keys_carry_over(first, sort_entries(second));
    lemma_tree_order_is_unique(sort_entries(first), sort_entries(second));
}

/// A tree that was written reads back: whatever encoding of the payload
/// of valid entries is stored, reading it as a tree gives the entries.
pub proof fn lemma_stored_tree_reads_back(object: EncodedObject, entries: Seq<EntryView>)
    requires
        all_valid(entries),
        object.encodes(ObjectKind::Tree, tree_payload(entries)),
    ensures
        stored_tree(object.compressed@) == Ok::<_, GitError>(entries),
{
    lemma_decode_inverts_encode(object, ObjectKind::Tree, tree_payload(entries));
    lemma_parse_inverts_payload(entries);
}

/// Ordering entries that can be written gives entries that can be
/// written.
pub proof fn lemma_sort_keeps_validity(entries: Seq<EntryView>)
    requires
        all_valid(entries),
    ensures
        all_valid(sort_entries(entries)),
{
    broadcast use vstd::seq_lib::to_multiset_contains;

    let sorted = sort_entries(entries);
    lemma_sort_keeps_entries(entries);
    assert forall|i: int| 0 <= i < sorted.len() implies valid_entry(#[trigger] sorted[i]) by {
        let entry = sorted[i];
        assert(sorted.contains(entry));
        assert(entries.to_multiset().count(entry) > 0);
        assert(entries.contains(entry));
        let at = choose|at: int| 0 <= at < entries.len() && entries[at] == entry;
        assert(valid_entry(entries[at]));
    }
}

/// The tree written for a directory reads back as the entries of the
/// directory in tree order: whatever encoding [`write_tree`] stores for
/// valid entries, [`read_tree`] finds exactly those entries in it.
pub proof fn lemma_written_tree_reads_back(object: EncodedObject, entries: Seq<EntryView>)
    requires
        all_valid(entries),
        object.encodes(ObjectKind::Tree, tree_payload(sort_entries(entries))),
    ensures
        stored_tree(object.compressed@) == Ok::<_, GitError>(sort_entries(entries)),
{
    lemma_sort_keeps_validity(entries);
    lemma_stored_tree_reads_back(object, sort_entries(entries));
}

/// A directory whose tree was written once gives the same tree again,
/// however it is listed: where one listing was written as `first`, writing
/// any listing with the same entries succeeds, with the same identity and
/// the same stored bytes.
pub proof fn lemma_second_tree_agrees(
    listing: Seq<EntryView>,
    first: EncodedObject,
    again: Seq<EntryView>,
    second: Result<EncodedObject, GitError>,
)
    requires
        listing.to_multiset() == again.to_multiset(),
        distinct_keys(listing),
        tree_written(listing, Ok(first)),
        tree_written(again, second),
    ensures
        second matches Ok(object) && object.id@ == first.id@ && object.compressed@
            == first.compressed@,
{
    lemma_listing_order_is_irrelevant(listing, again);
}

} // verus!
