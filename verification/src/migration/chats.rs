//! Taking over what was remembered of chats.
use vstd::prelude::*;
use crate::configuration::TELEGRAM_FILE;
use crate::storage::telegram::history::{download_views, fits, DownloadView};
use crate::storage::telegram::repository::{
    add_retries, file_views, retried, retried_once, Store, StoreView,
};
use crate::storage::telegram::{to_signed, ChatData, CompletedDownload, TooLarge};
use crate::table::{listed, Table};
use crate::text::{join2, same_str, views};

verus! {

/// Whether each chat is filed under its own id.
pub open spec fn filed(chats: Map<Seq<char>, ChatData>) -> bool {
    forall|k: Seq<char>| #[trigger] chats.contains_key(k) ==> chats[k].chat_id@ == k
}

/// What is remembered of a chat with more of it taken over: the later cursor,
/// and everything to retry.
pub open spec fn merged_chat(
    chats: Map<Seq<char>, ChatData>,
    chat: ChatData,
    d: ChatData,
) -> bool {
    let key = chat.chat_id@;
    let cursor = if chats.contains_key(key) {
        chats[key].last_read_message_id
    } else {
        0
    };
    let retries = if chats.contains_key(key) {
        chats[key].ids_to_retry@
    } else {
        Seq::empty()
    };
    &&& d.chat_id@ == key
    &&& d.last_read_message_id == (if chat.last_read_message_id > cursor {
        chat.last_read_message_id
    } else {
        cursor
    })
    &&& d.ids_to_retry@ == retries + chat.ids_to_retry@
}

/// Take over what is remembered of a chat.
pub fn merge_chat(chats: &mut Table<ChatData>, chat: ChatData)
    requires
        old(chats).wf(),
        filed(old(chats).view()),
    ensures
        final(chats).wf(),
        filed(final(chats).view()),
        final(chats).view().contains_key(chat.chat_id@),
        merged_chat(old(chats).view(), chat, final(chats).view()[chat.chat_id@]),
        final(chats).view().remove(chat.chat_id@) == old(chats).view().remove(chat.chat_id@),
{
    let ghost before = chats.view();
    let mut entry = match chats.remove(chat.chat_id.as_str()) {
        Some(d) => d,
        None => ChatData {
            chat_id: chat.chat_id.as_str().to_owned(),
            ids_to_retry: Vec::new(),
            last_read_message_id: 0,
        },
    };
    if chat.last_read_message_id > entry.last_read_message_id {
        entry.last_read_message_id = chat.last_read_message_id;
    }
    let ghost known = entry.ids_to_retry@;
    let mut i: usize = 0;
    assert(chat.ids_to_retry@.take(0) =~= Seq::empty());
    assert(known + Seq::<i32>::empty() =~= known);
    let ghost cursor = entry.last_read_message_id;
    let ghost name = entry.chat_id;
    while i < chat.ids_to_retry.len()
        invariant
            i <= chat.ids_to_retry@.len(),
            entry.ids_to_retry@ == known + chat.ids_to_retry@.take(i as int),
            entry.last_read_message_id == cursor,
            entry.chat_id == name,
        decreases chat.ids_to_retry@.len() - i,
    {
        entry.ids_to_retry.push(chat.ids_to_retry[i]);
        assert(chat.ids_to_retry@.take(i + 1) =~= chat.ids_to_retry@.take(i as int).push(
            chat.ids_to_retry@[i as int],
        ));
        assert(entry.ids_to_retry@ =~= known + chat.ids_to_retry@.take(i + 1));
        i += 1;
    }
    assert(chat.ids_to_retry@.take(i as int) =~= chat.ids_to_retry@);
    chats.insert(chat.chat_id.as_str(), entry);
    assert(chats.view().remove(chat.chat_id@) =~= before.remove(chat.chat_id@));
    assert forall|k: Seq<char>| #[trigger] chats.view().contains_key(k) implies chats.view()[k].chat_id@
        == k by {
        if k != chat.chat_id@ {
            assert(chats.view().remove(chat.chat_id@).contains_key(k));
            assert(before.contains_key(k));
        }
    }
}

/// Taking a chat over loses nothing: the cursor is no earlier than either, and
/// what was to be retried on either side still is.
pub proof fn law_merge_loses_nothing(
    chats: Map<Seq<char>, ChatData>,
    chat: ChatData,
    d: ChatData,
    id: i32,
)
    requires
        merged_chat(chats, chat, d),
    ensures
        d.last_read_message_id >= chat.last_read_message_id,
        chats.contains_key(chat.chat_id@) ==> d.last_read_message_id
            >= chats[chat.chat_id@].last_read_message_id,
        chat.ids_to_retry@.contains(id) ==> d.ids_to_retry@.contains(id),
        chats.contains_key(chat.chat_id@) && chats[chat.chat_id@].ids_to_retry@.contains(id)
            ==> d.ids_to_retry@.contains(id),
{
    let known = if chats.contains_key(chat.chat_id@) {
        chats[chat.chat_id@].ids_to_retry@
    } else {
        Seq::empty()
    };
    if chat.ids_to_retry@.contains(id) {
        let k = choose|k: int| 0 <= k < chat.ids_to_retry@.len() && chat.ids_to_retry@[k] == id;
        assert(d.ids_to_retry@[known.len() + k] == id);
    }
    if known.contains(id) {
        let k = choose|k: int| 0 <= k < known.len() && known[k] == id;
        assert(d.ids_to_retry@[k] == id);
    }
}

// ── Files ────────────────────────────────────────────────────────────────

/// The files with cursors in them, without one that an earlier import has read.
pub open spec fn cursor_files(discovered: Option<Seq<char>>, imported: bool) -> Seq<Seq<char>> {
    let first = match discovered {
        Some(p) => if imported && p == "telegram.yaml"@ {
            Seq::empty()
        } else {
            seq![p]
        },
        None => Seq::empty(),
    };
    let last = if imported {
        Seq::empty()
    } else {
        seq!["telegram.yaml"@]
    };
    first + seq!["config/telegram.yaml"@] + last
}

/// The files with cursors in them. `discovered` is the file that the settings
/// are taken over from; `imported` says that an earlier release has read
/// `telegram.yaml` already.
pub fn cursor_paths(discovered: Option<&str>, imported: bool) -> (r: Vec<String>)
    ensures
        views(r@) == cursor_files(
            match discovered {
                Some(p) => Some(p@),
                None => None,
            },
            imported,
        ),
{
    let mut r: Vec<String> = Vec::new();
    match discovered {
        Some(p) => {
            if !(imported && same_str(p, "telegram.yaml")) {
                r.push(p.to_owned());
            }
        },
        None => {},
    }
    r.push(TELEGRAM_FILE.to_owned());
    if !imported {
        r.push("telegram.yaml".to_owned());
    }
    assert(views(r@) =~= cursor_files(
        match discovered {
            Some(p) => Some(p@),
            None => None,
        },
        imported,
    ));
    r
}

/// What marks that the cursors of a file have been read.
pub fn cursor_marker(path: &str) -> (r: String)
    ensures
        r@ == "cursor:"@ + path@,
{
    join2("cursor:", path)
}

/// The files with what was remembered of chats.
pub fn data_paths(imported: bool) -> (r: Vec<String>)
    ensures
        views(r@) == (if imported {
            Seq::<Seq<char>>::empty()
        } else {
            seq!["telegram-data.yaml"@]
        }) + seq![
            "data.yaml"@,
            "config/telegram-data.yaml"@,
            "config/data.yaml"@,
            "config/telegram/data.yaml"@,
        ],
{
    let mut r: Vec<String> = Vec::new();
    if !imported {
        r.push("telegram-data.yaml".to_owned());
    }
    r.push("data.yaml".to_owned());
    r.push("config/telegram-data.yaml".to_owned());
    r.push("config/data.yaml".to_owned());
    r.push("config/telegram/data.yaml".to_owned());
    assert(views(r@) =~= (if imported {
        Seq::<Seq<char>>::empty()
    } else {
        seq!["telegram-data.yaml"@]
    }) + seq![
        "data.yaml"@,
        "config/telegram-data.yaml"@,
        "config/data.yaml"@,
        "config/telegram/data.yaml"@,
    ]);
    r
}

/// The files with the history of chats.
pub fn history_paths() -> (r: Vec<String>)
    ensures
        views(r@) == seq![
            "sessions/download-history.json"@,
            "config/sessions/download-history.json"@,
            "config/telegram/sessions/download-history.json"@,
        ],
{
    let mut r: Vec<String> = Vec::new();
    r.push("sessions/download-history.json".to_owned());
    r.push("config/sessions/download-history.json".to_owned());
    r.push("config/telegram/sessions/download-history.json".to_owned());
    assert(views(r@) =~= seq![
        "sessions/download-history.json"@,
        "config/sessions/download-history.json"@,
        "config/telegram/sessions/download-history.json"@,
    ]);
    r
}

// ── Rows ─────────────────────────────────────────────────────────────────

/// The sizes in a completed download as the database holds them: the bytes and
/// the time. `None` where it cannot hold one of them.
pub fn history_numbers(item: &CompletedDownload) -> (r: Option<(i64, i64)>)
    ensures
        r == (if item.bytes <= i64::MAX && item.completed_at <= i64::MAX {
            Some((item.bytes as i64, item.completed_at as i64))
        } else {
            None
        }),
{
    match (to_signed(item.bytes), to_signed(item.completed_at)) {
        (Some(b), Some(t)) => Some((b, t)),
        _ => None,
    }
}

// ── Taking rows over ─────────────────────────────────────────────────────

/// The cursors with those of some chats taken over: a cursor that is there stays.
pub open spec fn cursors_with(
    cursors: Map<Seq<char>, i32>,
    chats: Map<Seq<char>, ChatData>,
) -> Map<Seq<char>, i32> {
    chats.map_values(|d: ChatData| d.last_read_message_id).union_prefer_right(cursors)
}

/// Whether the messages to be retried are those of two sides.
pub open spec fn retries_with(
    retries: Seq<(String, i32)>,
    chats: Map<Seq<char>, ChatData>,
    after: Seq<(String, i32)>,
) -> bool {
    forall|c: Seq<char>, id: i32| #[trigger]
        retried(after, c, id) <==> retried(retries, c, id) || (chats.contains_key(c)
            && chats[c].ids_to_retry@.contains(id))
}

/// Take over what was remembered of some chats. A cursor that is there already is
/// kept, as it may be newer; messages to be retried are added to those there.
pub fn import_chats(
    cursors: &mut Table<i32>,
    retries: &mut Vec<(String, i32)>,
    chats: &Table<ChatData>,
)
    requires
        old(cursors).wf(),
        retried_once(old(retries)@),
        chats.wf(),
        filed(chats.view()),
    ensures
        final(cursors).wf(),
        final(cursors).view() == cursors_with(old(cursors).view(), chats.view()),
        retried_once(final(retries)@),
        retries_with(old(retries)@, chats.view(), final(retries)@),
{
    let ghost start = cursors.view();
    let ghost waiting = retries@;
    let ghost all = chats.view();
    let keys = chats.keys();
    let mut i: usize = 0;
    while i < keys.len()
        invariant
            i <= keys@.len(),
            chats.wf(),
            chats.view() == all,
            cursors.wf(),
            retried_once(retries@),
            forall|k: Seq<char>|
                #[trigger] all.contains_key(k) <==> listed(keys@, k, keys@.len() as int),
            forall|a: int, b: int|
                0 <= a < b < keys@.len() ==> (#[trigger] keys@[a])@ != (#[trigger] keys@[b])@,
            forall|k: Seq<char>| #[trigger]
                cursors.view().contains_key(k) <==> start.contains_key(k) || listed(
                    keys@,
                    k,
                    i as int,
                ),
            forall|k: Seq<char>| #[trigger]
                cursors.view().contains_key(k) ==> cursors.view()[k] == (if start.contains_key(k) {
                    start[k]
                } else {
                    all[k].last_read_message_id
                }),
            forall|c: Seq<char>, id: i32| #[trigger]
                retried(retries@, c, id) <==> retried(waiting, c, id) || (listed(
                    keys@,
                    c,
                    i as int,
                ) && all[c].ids_to_retry@.contains(id)),
        decreases keys@.len() - i,
    {
        let ghost before = cursors.view();
        let ghost queue = retries@;
        let key = keys[i].as_str();
        proof {
            assert(keys@[i as int]@ == key@);
            assert(listed(keys@, key@, keys@.len() as int));
            assert(!listed(keys@, key@, i as int));
        }
        if let Some(chat) = chats.get(key) {
            if !cursors.has(key) {
                cursors.insert(key, chat.last_read_message_id);
            }
            add_retries(retries, key, &chat.ids_to_retry);
        }
        proof {
            assert forall|k: Seq<char>| listed(keys@, k, i + 1) <==> #[trigger] listed(
                keys@,
                k,
                i as int,
            ) || k == key@ by {
                if listed(keys@, k, i + 1) {
                    let j = choose|j: int| 0 <= j < i + 1 && (#[trigger] keys@[j])@ == k;
                    if j < i {
                        assert(listed(keys@, k, i as int));
                    }
                }
                if listed(keys@, k, i as int) {
                    let j = choose|j: int| 0 <= j < i && (#[trigger] keys@[j])@ == k;
                    assert(keys@[j]@ == k);
                }
            }
            assert forall|k: Seq<char>| #[trigger]
                cursors.view().contains_key(k) <==> start.contains_key(k) || listed(
                    keys@,
                    k,
                    i + 1,
                ) by {
                assert(before.contains_key(k) <==> start.contains_key(k) || listed(
                    keys@,
                    k,
                    i as int,
                ));
            }
            assert forall|k: Seq<char>| #[trigger] cursors.view().contains_key(k) implies (
            cursors.view()[k] == (if start.contains_key(k) {
                start[k]
            } else {
                all[k].last_read_message_id
            })) by {
                if k != key@ {
                    assert(before.contains_key(k));
                }
            }
            assert forall|c: Seq<char>, id: i32| #[trigger]
                retried(retries@, c, id) <==> retried(waiting, c, id) || (listed(keys@, c, i + 1)
                    && all[c].ids_to_retry@.contains(id)) by {
                assert(retried(queue, c, id) <==> retried(waiting, c, id) || (listed(
                    keys@,
                    c,
                    i as int,
                ) && all[c].ids_to_retry@.contains(id)));
            }
        }
        i += 1;
    }
    assert(cursors.view() =~= cursors_with(start, all)) by {
        assert forall|k: Seq<char>| cursors.view().contains_key(k) implies cursors.view()[k]
            == #[trigger] cursors_with(start, all)[k] by {}
    }
}

/// Taking chats over moves no cursor that is there, loses no message to be
/// retried, and changes nothing the second time.
pub proof fn law_known_cursors_are_kept(
    cursors: Map<Seq<char>, i32>,
    retries: Seq<(String, i32)>,
    chats: Map<Seq<char>, ChatData>,
    once: Seq<(String, i32)>,
    twice: Seq<(String, i32)>,
    chat: Seq<char>,
    id: i32,
)
    requires
        retries_with(retries, chats, once),
        retries_with(once, chats, twice),
    ensures
        cursors.contains_key(chat) ==> cursors_with(cursors, chats).contains_key(chat)
            && cursors_with(cursors, chats)[chat] == cursors[chat],
        cursors_with(cursors_with(cursors, chats), chats) == cursors_with(cursors, chats),
        retried(retries, chat, id) ==> retried(once, chat, id),
        retried(twice, chat, id) == retried(once, chat, id),
{
    assert(cursors_with(cursors_with(cursors, chats), chats) =~= cursors_with(cursors, chats));
    assert(retried(once, chat, id) <==> retried(retries, chat, id) || (chats.contains_key(chat)
        && chats[chat].ids_to_retry@.contains(id)));
    assert(retried(twice, chat, id) <==> retried(once, chat, id) || (chats.contains_key(chat)
        && chats[chat].ids_to_retry@.contains(id)));
}

/// Whether a file is among those that were downloaded.
pub open spec fn has_file(files: Seq<(Seq<char>, u64)>, id: Seq<char>) -> bool {
    exists|i: int| 0 <= i < files.len() && (#[trigger] files[i]).0 == id
}

/// Files with some taken over, each unless it is there already: those are taken to
/// have been downloaded now.
pub open spec fn files_with(files: Seq<(Seq<char>, u64)>, ids: Seq<Seq<char>>, now: u64) -> Seq<
    (Seq<char>, u64),
>
    decreases ids.len(),
{
    if ids.len() == 0 {
        files
    } else {
        let before = files_with(files, ids.drop_last(), now);
        if has_file(before, ids.last()) {
            before
        } else {
            before.push((ids.last(), now))
        }
    }
}

fn is_file(files: &Vec<(String, u64)>, id: &str) -> (r: bool)
    ensures
        r == has_file(file_views(files@), id@),
{
    let ghost all = file_views(files@);
    let mut i: usize = 0;
    while i < files.len()
        invariant
            i <= files@.len(),
            all == file_views(files@),
            forall|k: int| 0 <= k < i ==> (#[trigger] all[k]).0 != id@,
        decreases files@.len() - i,
    {
        assert(all[i as int].0 == files@[i as int].0@);
        if same_str(files[i].0.as_str(), id) {
            return true;
        }
        i += 1;
    }
    false
}

/// Take over the files that were downloaded. One that is known keeps its time, any
/// other is taken to have been downloaded at `now`.
pub fn import_files(store: &mut Store, ids: &Vec<String>, now: u64)
    requires
        old(store).wf(),
    ensures
        final(store).wf(),
        final(store)@ == (StoreView {
            files: files_with(old(store)@.files, views(ids@), now),
            ..old(store)@
        }),
{
    let ghost start = store@;
    let ghost all = views(ids@);
    let mut i: usize = 0;
    assert(all.take(0) =~= Seq::empty());
    while i < ids.len()
        invariant
            i <= ids@.len(),
            all == views(ids@),
            store.wf(),
            store@ == (StoreView { files: files_with(start.files, all.take(i as int), now), ..start }),
        decreases ids@.len() - i,
    {
        let ghost before = store@.files;
        let id = ids[i].as_str();
        assert(all.take(i + 1).drop_last() =~= all.take(i as int));
        assert(all.take(i + 1).last() == id@);
        let known = is_file(&store.files, id);
        if !known {
            store.files.push((id.to_owned(), now));
            assert(file_views(store.files@) =~= before.push((id@, now)));
        }
        i += 1;
    }
    assert(all.take(i as int) =~= all);
}

proof fn lemma_files(files: Seq<(Seq<char>, u64)>, ids: Seq<Seq<char>>, now: u64, n: int)
    requires
        0 <= n <= ids.len(),
    ensures
        files.is_prefix_of(files_with(files, ids.take(n), now)),
        forall|i: int|
            0 <= i < n ==> has_file(files_with(files, ids.take(n), now), #[trigger] ids[i]),
    decreases n,
{
    let after = files_with(files, ids.take(n), now);
    if n > 0 {
        lemma_files(files, ids, now, n - 1);
        assert(ids.take(n).drop_last() =~= ids.take(n - 1));
        assert(ids.take(n).last() == ids[n - 1]);
        let before = files_with(files, ids.take(n - 1), now);
        assert forall|id: Seq<char>| has_file(before, id) implies #[trigger] has_file(
            after,
            id,
        ) by {
            let k = choose|k: int| 0 <= k < before.len() && (#[trigger] before[k]).0 == id;
            assert(after[k] == before[k]);
        }
        if !has_file(before, ids[n - 1]) {
            assert(after[before.len() as int].0 == ids[n - 1]);
        }
        assert forall|i: int| 0 <= i < n implies has_file(after, #[trigger] ids[i]) by {
            if i < n - 1 {
                assert(has_file(before, ids[i]));
            }
        }
    } else {
        assert(ids.take(0) =~= Seq::empty());
    }
}

/// Taking files over changes none that is there, its time neither, and brings
/// every one.
pub proof fn law_known_files_are_kept(
    files: Seq<(Seq<char>, u64)>,
    ids: Seq<Seq<char>>,
    now: u64,
    i: int,
)
    requires
        0 <= i < ids.len(),
    ensures
        files.is_prefix_of(files_with(files, ids, now)),
        has_file(files_with(files, ids, now), ids[i]),
{
    lemma_files(files, ids, now, ids.len() as int);
    assert(ids.take(ids.len() as int) =~= ids);
}

/// Whether a download is in a history: the same message, path and time.
pub open spec fn recorded(history: Seq<DownloadView>, d: DownloadView) -> bool {
    exists|i: int|
        0 <= i < history.len() && (#[trigger] history[i]).msg_id == d.msg_id && history[i].path
            == d.path && history[i].completed_at == d.completed_at
}

/// A history with some downloads taken over, each unless it is there already.
pub open spec fn history_with(history: Seq<DownloadView>, items: Seq<DownloadView>) -> Seq<
    DownloadView,
>
    decreases items.len(),
{
    if items.len() == 0 {
        history
    } else {
        let before = history_with(history, items.drop_last());
        if recorded(before, items.last()) {
            before
        } else {
            before.push(items.last())
        }
    }
}

fn is_recorded(history: &Vec<CompletedDownload>, item: &CompletedDownload) -> (r: bool)
    ensures
        r == recorded(download_views(history@), item@),
{
    let ghost all = download_views(history@);
    let mut i: usize = 0;
    while i < history.len()
        invariant
            i <= history@.len(),
            all == download_views(history@),
            forall|k: int|
                0 <= k < i ==> !((#[trigger] all[k]).msg_id == item.msg_id && all[k].path
                    == item.path@ && all[k].completed_at == item.completed_at),
        decreases history@.len() - i,
    {
        let known = &history[i];
        assert(all[i as int] == known@);
        if known.msg_id == item.msg_id && known.completed_at == item.completed_at && same_str(
            known.path.as_str(),
            item.path.as_str(),
        ) {
            return true;
        }
        i += 1;
    }
    false
}

/// Take over a history. Where the database cannot hold one of the downloads,
/// none is taken over.
pub fn import_history(history: &mut Vec<CompletedDownload>, items: &Vec<CompletedDownload>) -> (r:
    Result<(), TooLarge>)
    ensures
        if forall|i: int| 0 <= i < items@.len() ==> fits(#[trigger] items@[i]) {
            r is Ok && download_views(final(history)@) == history_with(
                download_views(old(history)@),
                download_views(items@),
            )
        } else {
            r == Err::<(), TooLarge>(TooLarge) && final(history)@ == old(history)@
        },
{
    let ghost new = download_views(items@);
    let mut i: usize = 0;
    while i < items.len()
        invariant
            i <= items@.len(),
            forall|k: int| 0 <= k < i ==> fits(#[trigger] items@[k]),
        decreases items@.len() - i,
    {
        if history_numbers(&items[i]).is_none() {
            assert(!fits(items@[i as int]));
            return Err(TooLarge);
        }
        i += 1;
    }
    let ghost start = download_views(history@);
    let mut j: usize = 0;
    assert(new.take(0) =~= Seq::empty());
    while j < items.len()
        invariant
            j <= items@.len(),
            new == download_views(items@),
            download_views(history@) == history_with(start, new.take(j as int)),
        decreases items@.len() - j,
    {
        let ghost before = download_views(history@);
        let item = &items[j];
        assert(new.take(j + 1).drop_last() =~= new.take(j as int));
        assert(new.take(j + 1).last() == item@);
        let known = is_recorded(history, item);
        if !known {
            history.push(item.copy());
            assert(download_views(history@) =~= before.push(item@));
        }
        j += 1;
    }
    assert(new.take(j as int) =~= new);
    Ok(())
}

proof fn lemma_recorded(history: Seq<DownloadView>, items: Seq<DownloadView>, n: int)
    requires
        0 <= n <= items.len(),
    ensures
        history.is_prefix_of(history_with(history, items.take(n))),
        forall|d: DownloadView| #[trigger]
            recorded(history, d) ==> recorded(history_with(history, items.take(n)), d),
        forall|i: int|
            0 <= i < n ==> recorded(history_with(history, items.take(n)), #[trigger] items[i]),
    decreases n,
{
    let after = history_with(history, items.take(n));
    if n > 0 {
        lemma_recorded(history, items, n - 1);
        assert(items.take(n).drop_last() =~= items.take(n - 1));
        let before = history_with(history, items.take(n - 1));
        let last = items[n - 1];
        assert(items.take(n).last() == last);
        assert forall|d: DownloadView| #[trigger] recorded(before, d) implies recorded(
            after,
            d,
        ) by {
            let i = choose|i: int|
                0 <= i < before.len() && (#[trigger] before[i]).msg_id == d.msg_id
                    && before[i].path == d.path && before[i].completed_at == d.completed_at;
            assert(after[i] == before[i]);
        }
        if !recorded(before, last) {
            assert(after[before.len() as int] == last);
        }
        assert(recorded(after, last));
        assert forall|d: DownloadView| #[trigger] recorded(history, d) implies recorded(
            after,
            d,
        ) by {
            assert(recorded(before, d));
        }
        assert forall|i: int| 0 <= i < n implies recorded(after, #[trigger] items[i]) by {
            if i < n - 1 {
                assert(recorded(before, items[i]));
            }
        }
    } else {
        assert(items.take(0) =~= Seq::empty());
    }
}

proof fn lemma_nothing_new(history: Seq<DownloadView>, items: Seq<DownloadView>)
    requires
        forall|i: int| 0 <= i < items.len() ==> recorded(history, #[trigger] items[i]),
    ensures
        history_with(history, items) == history,
    decreases items.len(),
{
    if items.len() > 0 {
        let t = items.drop_last();
        assert forall|i: int| 0 <= i < t.len() implies recorded(history, #[trigger] t[i]) by {
            assert(t[i] == items[i]);
        }
        lemma_nothing_new(history, t);
        assert(items.last() == items[items.len() - 1]);
    }
}

/// Taking a history over forgets nothing that is there, brings every download,
/// and brings nothing the second time.
pub proof fn law_history_is_taken_over_once(
    history: Seq<DownloadView>,
    items: Seq<DownloadView>,
    i: int,
)
    requires
        0 <= i < items.len(),
    ensures
        history.is_prefix_of(history_with(history, items)),
        recorded(history_with(history, items), items[i]),
        history_with(history_with(history, items), items) == history_with(history, items),
{
    lemma_recorded(history, items, items.len() as int);
    assert(items.take(items.len() as int) =~= items);
    lemma_nothing_new(history_with(history, items), items);
}

} // verus!
