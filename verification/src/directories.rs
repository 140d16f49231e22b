//! The directories that are offered for a new task: those that were kept, and
//! those that the disks hold.
use vstd::prelude::*;
use crate::codex_control;
use crate::control_session;
use crate::json;
use crate::qq_menu;
use crate::qq_menu::{MenuButton, MenuReply, ReplyContent};
use crate::store;
use crate::store::{Store, StoreView};
use crate::text;

verus! {

/// How many directories are kept.
pub const KEPT_LIMIT: usize = 8;

/// How many subdirectories a page shows.
pub const PAGE_SIZE: usize = 8;

// ---------------------------------------------------------------------------
// Kept directories
// ---------------------------------------------------------------------------

/// The directories that were kept, the latest first.
pub open spec fn kept(s: StoreView) -> Seq<Seq<char>> {
    match store::setting(s, "qq_favorites"@) {
        Some(list) => if list.len() > 0 {
            text::fields(list, '\n')
        } else {
            Seq::empty()
        },
        None => Seq::empty(),
    }
}

/// Whether a directory can stand in the list of those that are kept.
pub open spec fn can_be_kept(cwd: Seq<char>) -> bool {
    cwd.len() > 0 && !cwd.contains('\n')
}

/// A list of directories with one more in front, unless it is there already.
/// The oldest leave a list that is full.
pub open spec fn with_kept(list: Seq<Seq<char>>, cwd: Seq<char>) -> Seq<Seq<char>> {
    if list.contains(cwd) {
        list
    } else {
        store::first_of(seq![cwd] + list, KEPT_LIMIT as nat)
    }
}

/// The state after a directory was kept.
pub open spec fn directory_kept(s: StoreView, cwd: Seq<char>) -> StoreView {
    if can_be_kept(cwd) {
        store::with_setting(
            s,
            "qq_favorites"@,
            text::joined(with_kept(kept(s), cwd), seq!['\n']),
        )
    } else {
        s
    }
}

/// The buttons under what is said of a directory that was kept.
pub open spec fn kept_rows(cwd: Seq<char>) -> Seq<Seq<(Seq<char>, Seq<char>)>> {
    seq![
        control_session::button("使用此目录"@, "/ui cwd "@ + control_session::encoded(cwd)),
        control_session::button("收藏目录"@, "/ui favorites"@),
    ]
}

/// What is said of a directory that was kept, or could not be.
pub open spec fn kept_answer(cwd: Seq<char>) -> ReplyContent {
    control_session::menu_of(
        (if can_be_kept(cwd) {
            "已收藏目录："@
        } else {
            "无法收藏目录："@
        }) + cwd,
        kept_rows(cwd),
    )
}

/// The directories that were kept.
pub fn kept_directories(store: &Store) -> (result: Vec<String>)
    ensures
        text::texts(result@) == kept(store@),
{
    match store.get_setting("qq_favorites") {
        Some(list) => if list.as_str().is_empty() {
            let none: Vec<String> = Vec::new();
            assert(text::texts(none@) =~= kept(store@));
            none
        } else {
            text::split_char(list.as_str(), '\n')
        },
        None => {
            let none: Vec<String> = Vec::new();
            assert(text::texts(none@) =~= kept(store@));
            none
        },
    }
}

fn one_more(list: Vec<String>, cwd: &str) -> (result: Vec<String>)
    ensures
        text::texts(result@) == with_kept(text::texts(list@), cwd@),
{
    if codex_control::list_has(&list, cwd) {
        return list;
    }
    let ghost all = seq![cwd@] + text::texts(list@);
    let mut result: Vec<String> = Vec::new();
    result.push(cwd.to_owned());
    let mut i: usize = 0;
    assert(text::texts(result@) =~= all.take(1));
    while i < list.len() && i < KEPT_LIMIT - 1
        invariant
            i <= list@.len(),
            i < KEPT_LIMIT,
            all == seq![cwd@] + text::texts(list@),
            text::texts(result@) == all.take(i + 1),
        decreases list.len() - i,
    {
        let ghost held = text::texts(result@);
        result.push(list[i].clone());
        assert(text::texts(result@) =~= held.push(all[i + 1]));
        assert(all.take(i + 2) =~= held.push(all[i + 1]));
        i += 1;
    }
    assert(all.take(all.len() as int) =~= all);
    result
}

/// Keeps a directory.
pub fn keep_directory(store: &mut Store, cwd: &str) -> (result: MenuReply)
    ensures
        final(store)@ == directory_kept(old(store)@, cwd@),
        result@ == kept_answer(cwd@),
        store::consistent(old(store)@) ==> store::consistent(final(store)@),
{
    let usable = !cwd.is_empty() && !text::has_char(cwd, '\n');
    if usable {
        let list = kept_directories(store);
        let more = one_more(list, cwd);
        proof {
            reveal_strlit("\n");
            assert("\n"@ =~= seq!['\n']);
        }
        let shown = text::join(&more, "\n");
        store.set_setting("qq_favorites", shown.as_str());
    }
    let text = control_session::with_prefix(
        if usable {
            "已收藏目录："
        } else {
            "无法收藏目录："
        },
        cwd,
    );
    let value = control_session::encode(cwd);
    let command = control_session::with_prefix("/ui cwd ", value.as_str());
    let mut rows = control_session::no_rows();
    control_session::push_row(&mut rows, control_session::one("使用此目录", command.as_str()));
    control_session::push_row(&mut rows, control_session::one("收藏目录", "/ui favorites"));
    assert(qq_menu::rows_view(rows@) =~= kept_rows(cwd@));
    MenuReply::menu(text.as_str(), &rows)
}

/// The menu of the directories that were kept.
pub open spec fn favorites_menu(s: StoreView) -> ReplyContent {
    control_session::menu_of(
        if kept(s).len() == 0 {
            "收藏目录\n还没有收藏的目录，可在浏览磁盘时收藏。"@
        } else {
            "收藏目录\n选择工作目录。"@
        },
        control_session::choices(kept(s)).push(
            seq![("浏览磁盘"@, "/ui disks"@), ("取消"@, "/cancel"@)],
        ),
    )
}

/// The menu of the directories that were kept.
pub fn favorites(store: &Store) -> (result: MenuReply)
    ensures
        result@ == favorites_menu(store@),
{
    let list = kept_directories(store);
    assert(text::texts(list@).len() == list@.len());
    let mut rows = control_session::choice_rows(&list);
    control_session::push_row(
        &mut rows,
        control_session::two("浏览磁盘", "/ui disks", "取消", "/cancel"),
    );
    MenuReply::menu(
        if list.len() == 0 {
            "收藏目录\n还没有收藏的目录，可在浏览磁盘时收藏。"
        } else {
            "收藏目录\n选择工作目录。"
        },
        &rows,
    )
}

// ---------------------------------------------------------------------------
// Disks
// ---------------------------------------------------------------------------

/// The buttons of directories that can be looked into, each with its name.
pub open spec fn entry_rows(entries: Seq<(Seq<char>, Seq<char>)>) -> Seq<
    Seq<(Seq<char>, Seq<char>)>,
> {
    Seq::new(
        entries.len(),
        |i: int|
            control_session::button(
                control_session::shortened(entries[i].0, 24),
                "/ui dir "@ + control_session::encoded(entries[i].1),
            ),
    )
}

fn push_entries(rows: &mut Vec<Vec<MenuButton>>, entries: &Vec<(String, String)>, from: usize, to:
    usize)
    requires
        from <= to <= entries@.len(),
    ensures
        qq_menu::rows_view(final(rows)@) == qq_menu::rows_view(old(rows)@) + entry_rows(
            json::pairs(entries@).subrange(from as int, to as int),
        ),
{
    let ghost before = qq_menu::rows_view(rows@);
    let ghost shown = entry_rows(json::pairs(entries@).subrange(from as int, to as int));
    assert(before + shown.take(0) =~= before);
    for i in from..to
        invariant
            from <= to <= entries@.len(),
            shown == entry_rows(json::pairs(entries@).subrange(from as int, to as int)),
            qq_menu::rows_view(rows@) == before + shown.take(i - from),
    {
        let label = control_session::shorten(entries[i].0.as_str(), 24);
        let value = control_session::encode(entries[i].1.as_str());
        let command = control_session::with_prefix("/ui dir ", value.as_str());
        control_session::push_row(rows, control_session::one(label.as_str(), command.as_str()));
        assert(json::pairs(entries@)[i as int] == (entries@[i as int].0@, entries@[i as int].1@));
        assert(before + shown.take(i + 1 - from) =~= (before + shown.take(i - from)).push(
            shown[i - from],
        ));
    }
    assert(shown.take(to - from) =~= shown);
}

/// The menu of the disks, each with its name and its path.
pub open spec fn disk_menu(disks: Seq<(Seq<char>, Seq<char>)>) -> ReplyContent {
    control_session::menu_of(
        "浏览磁盘\n选择盘符。"@,
        entry_rows(json::by_name(disks)).push(control_session::button("取消"@, "/cancel"@)),
    )
}

/// The menu of the disks.
pub fn browse_disks(disks: Vec<(String, String)>) -> (result: MenuReply)
    ensures
        result@ == disk_menu(json::pairs(disks@)),
{
    let sorted = json::sort_members(disks);
    let ghost all = json::pairs(sorted@);
    let mut rows = control_session::no_rows();
    push_entries(&mut rows, &sorted, 0, sorted.len());
    assert(all.subrange(0, sorted@.len() as int) =~= all);
    assert(qq_menu::rows_view(rows@) =~= entry_rows(all));
    control_session::push_row(&mut rows, control_session::one("取消", "/cancel"));
    MenuReply::menu("浏览磁盘\n选择盘符。", &rows)
}

/// Where a page ends.
pub open spec fn page_end(total: nat, page: nat) -> nat {
    if (page + 1) * PAGE_SIZE < total {
        (page + 1) * PAGE_SIZE as nat
    } else {
        total
    }
}

/// What a page shows.
pub open spec fn page_of<T>(all: Seq<T>, page: nat) -> Seq<T> {
    if page * PAGE_SIZE < all.len() {
        all.subrange(page * PAGE_SIZE, page_end(all.len(), page) as int)
    } else {
        Seq::empty()
    }
}

/// The menu of one directory: to take it, to keep it, or to look into one of
/// its subdirectories, page by page.
pub open spec fn directory_page(
    path: Seq<char>,
    entries: Seq<(Seq<char>, Seq<char>)>,
    page: nat,
) -> ReplyContent {
    let all = json::by_name(entries);
    let shown = seq![
        seq![
            ("使用此目录"@, "/ui cwd "@ + control_session::encoded(path)),
            ("收藏此目录"@, "/ui keep "@ + control_session::encoded(path)),
        ],
    ] + entry_rows(page_of(all, page));
    let more = if page_end(all.len(), page) < all.len() {
        shown.push(
            control_session::button(
                "下一页"@,
                "/ui page "@ + text::decimal(page + 1) + " "@ + control_session::encoded(path),
            ),
        )
    } else {
        shown
    };
    control_session::menu_of(
        "当前目录："@ + path + "\n选择子目录，或使用当前目录。"@,
        more.push(control_session::button("取消"@, "/cancel"@)),
    )
}

/// The menu of one directory.
pub fn browse_directory(path: &str, entries: Vec<(String, String)>, page: u64) -> (result:
    MenuReply)
    ensures
        result@ == directory_page(path@, json::pairs(entries@), page as nat),
{
    let sorted = json::sort_members(entries);
    let ghost all = json::pairs(sorted@);
    let total: u64 = sorted.len() as u64;
    let size: u64 = PAGE_SIZE as u64;
    let full: u64 = total / size;
    let start: u64 = if page <= full {
        page * size
    } else {
        total
    };
    let end: u64 = if page < full {
        (page + 1) * size
    } else {
        total
    };
    let value = control_session::encode(path);
    let take = control_session::with_prefix("/ui cwd ", value.as_str());
    let keep = control_session::with_prefix("/ui keep ", value.as_str());
    let mut rows = control_session::no_rows();
    control_session::push_row(
        &mut rows,
        control_session::two("使用此目录", take.as_str(), "收藏此目录", keep.as_str()),
    );
    let ghost head = qq_menu::rows_view(rows@);
    if start < total {
        push_entries(&mut rows, &sorted, start as usize, end as usize);
    } else {
        assert(entry_rows(page_of(all, page as nat)) =~= Seq::empty());
        assert(head + entry_rows(page_of(all, page as nat)) =~= head);
    }
    if end < total {
        let number = text::decimal_text(page + 1);
        let mut more = "/ui page ".to_owned();
        more.append(number.as_str());
        more.append(" ");
        more.append(value.as_str());
        control_session::push_row(&mut rows, control_session::one("下一页", more.as_str()));
    }
    control_session::push_row(&mut rows, control_session::one("取消", "/cancel"));
    let mut shown = "当前目录：".to_owned();
    shown.append(path);
    shown.append("\n选择子目录，或使用当前目录。");
    MenuReply::menu(shown.as_str(), &rows)
}

// ---------------------------------------------------------------------------
// Laws
// ---------------------------------------------------------------------------

/// A directory that was kept is offered from then on, in front of the others
/// where it is new, and keeping it once more changes nothing.
pub proof fn lemma_kept_directory_is_offered(s: StoreView, cwd: Seq<char>)
    requires
        can_be_kept(cwd),
    ensures
        ({
            let after = directory_kept(s, cwd);
            &&& kept(after) == with_kept(kept(s), cwd)
            &&& kept(after).contains(cwd)
            &&& !kept(s).contains(cwd) ==> kept(after)[0] == cwd
            &&& kept(directory_kept(after, cwd)) == kept(after)
        }),
{
    let list = kept(s);
    let more = with_kept(list, cwd);
    if store::setting(s, "qq_favorites"@) is Some && store::setting(
        s,
        "qq_favorites"@,
    )->0.len() > 0 {
        text::lemma_fields_hold(store::setting(s, "qq_favorites"@)->0, '\n');
    }
    if !list.contains(cwd) {
        assert(more[0] == cwd);
    }
    assert(more.contains(cwd));
    assert forall|k: int| 0 <= k < more.len() implies !(#[trigger] more[k]).contains('\n') by {
        if more[k] != cwd {
            let j = if list.contains(cwd) {
                k
            } else {
                k - 1
            };
            assert(more[k] == list[j]);
        }
    }
    text::lemma_fields_of_joined(more, '\n');
    lemma_joined_is_there(more, cwd);
}

/// A list with something in it is no empty text.
proof fn lemma_joined_is_there(list: Seq<Seq<char>>, cwd: Seq<char>)
    requires
        list.contains(cwd),
        cwd.len() > 0,
    ensures
        text::joined(list, seq!['\n']).len() > 0,
    decreases list.len(),
{
    let k = choose|k: int| 0 <= k < list.len() && list[k] == cwd;
    assert(list[k] == cwd);
}

/// Every subdirectory is on a page.
pub proof fn lemma_every_entry_has_a_page<T>(all: Seq<T>, i: int)
    requires
        0 <= i < all.len(),
    ensures
        ({
            let page = (i / PAGE_SIZE as int) as nat;
            let at = i % PAGE_SIZE as int;
            &&& at < page_of(all, page).len()
            &&& page_of(all, page)[at] == all[i]
        }),
{
}

} // verus!
