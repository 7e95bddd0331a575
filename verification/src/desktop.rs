//! The decisions of the desktop shell: the recent-documents list, which
//! command-line arguments are documents, what a menu item does, and the
//! items of the recent-documents menu. Dialogs, files, the store and the
//! window system stay with the shell.

use vstd::prelude::*;
use crate::text::{utf8_of, bytes_of, lemma_utf8_of_valid, string_of_valid, lemma_concat_valid, lemma_ascii_valid,
    lemma_subrange_valid, lemma_after_ascii, str_slice, all_ascii};
use crate::scan::{match_at, matches_at, push_all};

verus! {

/// The most recent documents kept.
pub const RECENT_MAX: usize = 10;

/// An entry of the new recent-documents list: the document just opened, or
/// the entry at this index of the old list.
#[derive(Debug, Clone, Copy, PartialEq, Eq)]
pub enum RecentSlot {
    Opened,
    Kept(usize),
}

/// The entry `p` (the path of an old entry, if it has one) names the document `path`.
pub open spec fn same_path(p: Option<String>, path: Seq<char>) -> bool {
    p matches Some(s) && s@ == path
}

/// The indices from `i` on of the old entries that do not name `path`.
pub open spec fn kept_from(old: Seq<Option<String>>, path: Seq<char>, i: int) -> Seq<RecentSlot>
    decreases old.len() - i,
{
    if i < 0 || i >= old.len() {
        seq![]
    } else if same_path(old[i], path) {
        kept_from(old, path, i + 1)
    } else {
        seq![RecentSlot::Kept(i as usize)] + kept_from(old, path, i + 1)
    }
}

/// The recent-documents list after opening `path`: the new entry first, then
/// the old entries that do not name it, in their order, at most `RECENT_MAX`.
pub open spec fn recent_after_open_spec(old: Seq<Option<String>>, path: Seq<char>) -> Seq<RecentSlot> {
    let all = seq![RecentSlot::Opened] + kept_from(old, path, 0);
    if all.len() > RECENT_MAX {
        all.subrange(0, RECENT_MAX as int)
    } else {
        all
    }
}

fn same_str(a: &str, b: &str) -> (r: bool)
    ensures
        r == (a@ == b@),
{
    let x = bytes_of(a);
    let y = bytes_of(b);
    proof {
        lemma_utf8_of_valid(a@);
        lemma_utf8_of_valid(b@);
    }
    if x.len() != y.len() {
        return false;
    }
    let r = match_at(x, 0, y);
    proof {
        if r {
            assert(x@ =~= x@.subrange(0, x@.len() as int));
            assert(x@ =~= y@);
        }
    }
    r
}

/// The recent-documents list after opening the document `path`, as slots of
/// the old list `old_paths` (the path of each old entry, when it has one).
pub fn recent_after_open(old_paths: &Vec<Option<String>>, path: &str) -> (r: Vec<RecentSlot>)
    ensures
        r@ == recent_after_open_spec(old_paths@, path@),
{
    let mut out: Vec<RecentSlot> = Vec::new();
    out.push(RecentSlot::Opened);
    let n = old_paths.len();
    let mut i: usize = 0;
    while i < n
        invariant
            n == old_paths@.len(),
            i <= n,
            seq![RecentSlot::Opened] + kept_from(old_paths@, path@, 0) == out@ + kept_from(old_paths@, path@, i as int),
        decreases n - i,
    {
        let keep = match &old_paths[i] {
            Some(s) => !same_str(s.as_str(), path),
            None => true,
        };
        let ghost before = out@;
        if keep {
            out.push(RecentSlot::Kept(i));
            assert(before + kept_from(old_paths@, path@, i as int) =~= out@ + kept_from(old_paths@, path@, i + 1));
        }
        i = i + 1;
    }
    assert(out@ + kept_from(old_paths@, path@, n as int) =~= out@);
    if out.len() > RECENT_MAX {
        out.truncate(RECENT_MAX);
    }
    out
}

/// After a document is opened, the recent list starts with it, keeps no
/// other entry that names it, keeps the old entries in their order, and
/// holds at most `RECENT_MAX` entries.
pub proof fn lemma_recent_after_open(old: Seq<Option<String>>, path: Seq<char>)
    requires
        old.len() <= usize::MAX,
    ensures
        ({
            let r = recent_after_open_spec(old, path);
            &&& 1 <= r.len() <= RECENT_MAX
            &&& r[0] == RecentSlot::Opened
            &&& forall|k: int| 1 <= k < r.len() ==> (#[trigger] r[k] matches RecentSlot::Kept(i)
                && 0 <= i < old.len() && !same_path(old[i as int], path))
            &&& forall|j: int, k: int| 1 <= j < k < r.len() ==> (#[trigger] r[j] matches RecentSlot::Kept(a)
                && #[trigger] r[k] matches RecentSlot::Kept(b) && a < b)
        }),
{
    lemma_kept_from(old, path, 0);
    let all = seq![RecentSlot::Opened] + kept_from(old, path, 0);
    let r = recent_after_open_spec(old, path);
    assert forall|k: int| 1 <= k < r.len() implies (#[trigger] r[k] matches RecentSlot::Kept(i)
        && 0 <= i < old.len() && !same_path(old[i as int], path)) by {
        assert(r[k] == all[k]);
        assert(all[k] == kept_from(old, path, 0)[k - 1]);
    }
    assert forall|j: int, k: int| 1 <= j < k < r.len() implies (#[trigger] r[j] matches RecentSlot::Kept(a)
        && #[trigger] r[k] matches RecentSlot::Kept(b) && a < b) by {
        assert(r[j] == kept_from(old, path, 0)[j - 1]);
        assert(r[k] == kept_from(old, path, 0)[k - 1]);
    }
}

proof fn lemma_kept_from(old: Seq<Option<String>>, path: Seq<char>, i: int)
    requires
        0 <= i,
        old.len() <= usize::MAX,
    ensures
        forall|k: int| 0 <= k < kept_from(old, path, i).len() ==> (#[trigger] kept_from(old, path, i)[k] matches RecentSlot::Kept(x)
            && i <= x < old.len() && !same_path(old[x as int], path)),
        forall|j: int, k: int| 0 <= j < k < kept_from(old, path, i).len() ==> (
            #[trigger] kept_from(old, path, i)[j] matches RecentSlot::Kept(a)
            && #[trigger] kept_from(old, path, i)[k] matches RecentSlot::Kept(b) && a < b),
    decreases old.len() - i,
{
    if i < old.len() {
        lemma_kept_from(old, path, i + 1);
        let rest = kept_from(old, path, i + 1);
        if !same_path(old[i], path) {
            let s = kept_from(old, path, i);
            assert(s == seq![RecentSlot::Kept(i as usize)] + rest);
            assert forall|k: int| 0 <= k < s.len() implies (#[trigger] s[k] matches RecentSlot::Kept(x)
                && i <= x < old.len() && !same_path(old[x as int], path)) by {
                if k > 0 {
                    assert(s[k] == rest[k - 1]);
                }
            }
            assert forall|j: int, k: int| 0 <= j < k < s.len() implies (#[trigger] s[j] matches RecentSlot::Kept(a)
                && #[trigger] s[k] matches RecentSlot::Kept(b) && a < b) by {
                assert(s[k] == rest[k - 1]);
                if j > 0 {
                    assert(s[j] == rest[j - 1]);
                }
            }
        }
    }
}

/// An entry of the recent-documents menu.
#[derive(Debug, Clone)]
pub struct RecentEntry {
    pub path: String,
    pub name: String,
}

/// The stored entries that have both a path and a name, in order.
pub open spec fn stored_entries(raw: Seq<(Option<String>, Option<String>)>) -> Seq<(Seq<char>, Seq<char>)>
    decreases raw.len(),
{
    if raw.len() == 0 {
        seq![]
    } else {
        let rest = stored_entries(raw.drop_last());
        match raw.last() {
            (Some(p), Some(n)) => rest.push((p@, n@)),
            _ => rest,
        }
    }
}

pub open spec fn entries_view(v: Seq<RecentEntry>) -> Seq<(Seq<char>, Seq<char>)> {
    v.map_values(|e: RecentEntry| (e.path@, e.name@))
}

/// The recent-documents entries of the store: those with a path and a name.
pub fn recent_entries(raw: Vec<(Option<String>, Option<String>)>) -> (r: Vec<RecentEntry>)
    ensures
        entries_view(r@) == stored_entries(raw@),
{
    let mut out: Vec<RecentEntry> = Vec::new();
    let n = raw.len();
    let mut i: usize = 0;
    assert(raw@.subrange(0, 0) =~= Seq::<(Option<String>, Option<String>)>::empty());
    while i < n
        invariant
            n == raw@.len(),
            i <= n,
            entries_view(out@) == stored_entries(raw@.subrange(0, i as int)),
        decreases n - i,
    {
        let ghost before = out@;
        assert(raw@.subrange(0, i + 1).drop_last() =~= raw@.subrange(0, i as int));
        match &raw[i] {
            (Some(p), Some(nm)) => {
                out.push(RecentEntry { path: p.clone(), name: nm.clone() });
                assert(entries_view(out@) =~= entries_view(before).push((p@, nm@)));
            },
            _ => {},
        }
        i = i + 1;
    }
    assert(raw@.subrange(0, n as int) =~= raw@);
    out
}

/// ASCII lower case of a byte.
pub open spec fn ascii_lower(b: u8) -> u8 {
    if 65 <= b <= 90 {
        (b + 32) as u8
    } else {
        b
    }
}

/// `str::eq_ignore_ascii_case` on bytes.
pub open spec fn eq_ignore_ascii_case(a: Seq<u8>, b: Seq<u8>) -> bool {
    a.len() == b.len() && forall|i: int| 0 <= i < a.len() ==> #[trigger] ascii_lower(a[i]) == ascii_lower(b[i])
}

fn eq_ignore_ascii_case_exec(a: &[u8], b: &[u8]) -> (r: bool)
    ensures
        r == eq_ignore_ascii_case(a@, b@),
{
    if a.len() != b.len() {
        return false;
    }
    let mut i: usize = 0;
    while i < a.len()
        invariant
            a@.len() == b@.len(),
            i <= a@.len(),
            forall|j: int| 0 <= j < i ==> #[trigger] ascii_lower(a@[j]) == ascii_lower(b@[j]),
        decreases a@.len() - i,
    {
        let x = a[i];
        let y = b[i];
        let lx = if 65 <= x && x <= 90 { x + 32 } else { x };
        let ly = if 65 <= y && y <= 90 { y + 32 } else { y };
        assert(lx == ascii_lower(a@[i as int]) && ly == ascii_lower(b@[i as int]));
        if lx != ly {
            return false;
        }
        i = i + 1;
    }
    true
}

/// `hwp`.
pub open spec fn ext_hwp() -> Seq<u8> {
    seq![104u8, 119, 112]
}

/// `hwpx`.
pub open spec fn ext_hwpx() -> Seq<u8> {
    seq![104u8, 119, 112, 120]
}

/// A file extension names an HWP or HWPX document (ASCII case ignored).
pub fn is_document_extension(ext: Option<&str>) -> (r: bool)
    ensures
        r == match ext {
            Some(e) => eq_ignore_ascii_case(utf8_of(e@), ext_hwp()) || eq_ignore_ascii_case(utf8_of(e@), ext_hwpx()),
            None => false,
        },
{
    match ext {
        Some(e) => {
            let hwp: Vec<u8> = vec![104u8, 119, 112];
            let hwpx: Vec<u8> = vec![104u8, 119, 112, 120];
            assert(hwp@ =~= ext_hwp());
            assert(hwpx@ =~= ext_hwpx());
            let b = bytes_of(e);
            eq_ignore_ascii_case_exec(b, hwp.as_slice()) || eq_ignore_ascii_case_exec(b, hwpx.as_slice())
        },
        None => false,
    }
}

/// What a menu click does.
#[derive(Debug, Clone, PartialEq, Eq)]
pub enum MenuAction {
    /// Open the recent document at this path.
    OpenRecent(String),
    /// The placeholder of an empty recent list: nothing.
    Nothing,
    /// Hand the item id to the studio as a command.
    Command(String),
}

/// `recent:`.
pub open spec fn recent_prefix() -> Seq<u8> {
    seq![114u8, 101, 99, 101, 110, 116, 58]
}

/// `__none__`.
pub open spec fn none_marker() -> Seq<u8> {
    seq![95u8, 95, 110, 111, 110, 101, 95, 95]
}

/// The action of the menu item `id`: an id `recent:PATH` opens `PATH` (except
/// the placeholder `recent:__none__`, which does nothing); any other id is a
/// studio command with that id.
pub open spec fn is_menu_action(id: Seq<char>, r: MenuAction) -> bool {
    let b = utf8_of(id);
    if matches_at(b, 0, recent_prefix()) {
        let path = b.subrange(7, b.len() as int);
        if path == none_marker() {
            r == MenuAction::Nothing
        } else {
            r matches MenuAction::OpenRecent(s) && utf8_of(s@) == path
        }
    } else {
        r matches MenuAction::Command(s) && s@ == id
    }
}

/// What the menu item with id `id` does.
pub fn menu_action(id: &str) -> (r: MenuAction)
    ensures
        is_menu_action(id@, r),
{
    let b = bytes_of(id);
    let n = b.len();
    let prefix: Vec<u8> = vec![114u8, 101, 99, 101, 110, 116, 58];
    let none: Vec<u8> = vec![95u8, 95, 110, 111, 110, 101, 95, 95];
    assert(prefix@ =~= recent_prefix());
    assert(none@ =~= none_marker());
    if match_at(b, 0, prefix.as_slice()) {
        proof {
            lemma_utf8_of_valid(id@);
            assert(b@.subrange(0, 7)[6] == b@[6]);
            lemma_after_ascii(b@, 6);
        }
        let is_none = n == 15 && match_at(b, 7, none.as_slice());
        proof {
            if n == 15 {
                assert(b@.subrange(7, 15) =~= b@.subrange(7, n as int));
            }
        }
        if is_none {
            return MenuAction::Nothing;
        }
        let path = str_slice(id, 7, n);
        return MenuAction::OpenRecent(path.to_owned());
    }
    MenuAction::Command(id.to_owned())
}

/// An item of the recent-documents menu.
#[derive(Debug, Clone, PartialEq, Eq)]
pub struct MenuItemSpec {
    pub id: String,
    pub label: String,
    pub enabled: bool,
}

/// The items of the recent-documents menu: a disabled placeholder
/// `recent:__none__` "(없음)" when the list is empty, else one item
/// `recent:PATH` labelled with the name per entry.
pub open spec fn recent_menu_spec(recent: Seq<(Seq<char>, Seq<char>)>) -> Seq<(Seq<u8>, Seq<char>, bool)> {
    if recent.len() == 0 {
        seq![(recent_prefix() + none_marker(), "(없음)"@, false)]
    } else {
        recent.map_values(|e: (Seq<char>, Seq<char>)| (recent_prefix() + utf8_of(e.0), e.1, true))
    }
}

pub open spec fn items_view(v: Seq<MenuItemSpec>) -> Seq<(Seq<u8>, Seq<char>, bool)> {
    v.map_values(|m: MenuItemSpec| (utf8_of(m.id@), m.label@, m.enabled))
}

fn recent_id(path: &str) -> (r: String)
    ensures
        utf8_of(r@) == recent_prefix() + utf8_of(path@),
{
    let mut v: Vec<u8> = vec![114u8, 101, 99, 101, 110, 116, 58];
    assert(v@ =~= recent_prefix());
    let ghost p0 = v@;
    push_all(&mut v, bytes_of(path));
    proof {
        assert(all_ascii(p0));
        lemma_ascii_valid(p0);
        lemma_utf8_of_valid(path@);
        lemma_concat_valid(p0, utf8_of(path@));
    }
    string_of_valid(v)
}

/// The items of the recent-documents menu for `recent`.
pub fn recent_menu_items(recent: &Vec<RecentEntry>) -> (r: Vec<MenuItemSpec>)
    ensures
        items_view(r@) == recent_menu_spec(entries_view(recent@)),
{
    let mut out: Vec<MenuItemSpec> = Vec::new();
    if recent.len() == 0 {
        let mut v: Vec<u8> = vec![114u8, 101, 99, 101, 110, 116, 58, 95, 95, 110, 111, 110, 101, 95, 95];
        assert(v@ =~= recent_prefix() + none_marker());
        proof {
            assert(all_ascii(v@));
            lemma_ascii_valid(v@);
        }
        let id = string_of_valid(v);
        out.push(MenuItemSpec { id, label: "(없음)".to_owned(), enabled: false });
        assert(items_view(out@) =~= recent_menu_spec(entries_view(recent@)));
        return out;
    }
    let n = recent.len();
    let mut i: usize = 0;
    while i < n
        invariant
            n == recent@.len(),
            n > 0,
            i <= n,
            items_view(out@) == recent_menu_spec(entries_view(recent@)).subrange(0, i as int),
        decreases n - i,
    {
        let e = &recent[i];
        let id = recent_id(e.path.as_str());
        let ghost before = out@;
        let label = e.name.clone();
        let ghost item = (utf8_of(id@), label@, true);
        out.push(MenuItemSpec { id, label, enabled: true });
        proof {
            let full = recent_menu_spec(entries_view(recent@));
            assert(entries_view(recent@)[i as int] == (e.path@, e.name@));
            assert(full[i as int] == item);
            assert(items_view(out@) =~= items_view(before).push(item));
            assert(full.subrange(0, i + 1) =~= full.subrange(0, i as int).push(item));
        }
        i = i + 1;
    }
    assert(recent_menu_spec(entries_view(recent@)).subrange(0, n as int) =~= recent_menu_spec(entries_view(recent@)));
    out
}

} // verus!
