//! Everything that is remembered of chats, and how it is written and read.
use vstd::prelude::*;
use super::{AppData, ChatData};
use crate::table::{listed, Table};
use crate::text::same_str;

verus! {

/// Whether a message of a chat is to be retried.
pub open spec fn retried(retries: Seq<(String, i32)>, chat: Seq<char>, id: i32) -> bool {
    exists|i: int| 0 <= i < retries.len() && (#[trigger] retries[i]).0@ == chat && retries[i].1 == id
}

/// Whether every message to be retried is there once.
pub open spec fn retried_once(retries: Seq<(String, i32)>) -> bool {
    forall|i: int, j: int|
        0 <= i < j < retries.len() ==> !((#[trigger] retries[i]).0@ == (#[trigger] retries[j]).0@
            && retries[i].1 == retries[j].1)
}

fn is_retried(retries: &Vec<(String, i32)>, chat: &str, id: i32) -> (r: bool)
    ensures
        r == retried(retries@, chat@, id),
{
    let mut i: usize = 0;
    while i < retries.len()
        invariant
            i <= retries@.len(),
            forall|k: int|
                0 <= k < i ==> !((#[trigger] retries@[k]).0@ == chat@ && retries@[k].1 == id),
        decreases retries@.len() - i,
    {
        if retries[i].1 == id && same_str(retries[i].0.as_str(), chat) {
            assert(retries@[i as int].0@ == chat@);
            return true;
        }
        i += 1;
    }
    false
}

/// The messages of one chat are to be retried, unless they are already.
pub fn add_retries(retries: &mut Vec<(String, i32)>, chat: &str, ids: &Vec<i32>)
    requires
        retried_once(old(retries)@),
    ensures
        retried_once(final(retries)@),
        forall|c: Seq<char>, id: i32| #[trigger]
            retried(final(retries)@, c, id) <==> retried(old(retries)@, c, id) || (c == chat@
                && ids@.contains(id)),
{
    let ghost start = retries@;
    let mut i: usize = 0;
    assert(ids@.take(0) =~= Seq::empty());
    while i < ids.len()
        invariant
            i <= ids@.len(),
            retried_once(retries@),
            forall|c: Seq<char>, id: i32| #[trigger]
                retried(retries@, c, id) <==> retried(start, c, id) || (c == chat@ && ids@.take(
                    i as int,
                ).contains(id)),
        decreases ids@.len() - i,
    {
        let id: i32 = ids[i];
        let ghost before = retries@;
        let known = is_retried(retries, chat, id);
        if !known {
            retries.push((chat.to_owned(), id));
        }
        proof {
            let more = ids@.take(i + 1);
            assert(more =~= ids@.take(i as int).push(id));
            assert(more[i as int] == id);
            assert forall|c: Seq<char>, x: i32| #[trigger]
                retried(retries@, c, x) <==> retried(start, c, x) || (c == chat@ && more.contains(
                    x,
                )) by {
                if retried(retries@, c, x) && !retried(before, c, x) {
                    let k = choose|k: int|
                        0 <= k < retries@.len() && (#[trigger] retries@[k]).0@ == c
                            && retries@[k].1 == x;
                    if k < before.len() {
                        assert(before[k] == retries@[k]);
                    }
                }
                if retried(before, c, x) {
                    let k = choose|k: int|
                        0 <= k < before.len() && (#[trigger] before[k]).0@ == c && before[k].1 == x;
                    assert(retries@[k] == before[k]);
                }
                if c == chat@ && more.contains(x) {
                    if x == id {
                        if !known {
                            assert(retries@[before.len() as int].0@ == c);
                        }
                    } else {
                        let k = choose|k: int| 0 <= k < more.len() && more[k] == x;
                        assert(ids@.take(i as int)[k] == x);
                    }
                }
                if ids@.take(i as int).contains(x) {
                    let k = choose|k: int|
                        0 <= k < ids@.take(i as int).len() && ids@.take(i as int)[k] == x;
                    assert(more[k] == x);
                }
            }
            if !known {
                assert forall|a: int, b: int| 0 <= a < b < retries@.len() implies !((
                #[trigger] retries@[a]).0@ == (#[trigger] retries@[b]).0@ && retries@[a].1
                    == retries@[b].1) by {
                    assert(before[a] == retries@[a]);
                    if b < before.len() {
                        assert(before[b] == retries@[b]);
                    }
                }
            }
        }
        i += 1;
    }
    assert(ids@.take(i as int) =~= ids@);
}

/// The rows that hold what is remembered.
pub struct Store {
    pub files: Vec<(String, u64)>,
    /// The cursors of the chats.
    pub chats: Table<i32>,
    /// The messages to be retried, each with its chat.
    pub retries: Vec<(String, i32)>,
}

/// What the rows hold.
pub struct StoreView {
    pub files: Seq<(Seq<char>, u64)>,
    pub chats: Map<Seq<char>, i32>,
    pub retries: Set<(Seq<char>, i32)>,
}

/// The files that were downloaded, with their times.
pub open spec fn file_views(files: Seq<(String, u64)>) -> Seq<(Seq<char>, u64)> {
    Seq::new(files.len(), |i: int| (files[i].0@, files[i].1))
}

impl View for Store {
    type V = StoreView;

    open spec fn view(&self) -> StoreView {
        StoreView {
            files: file_views(self.files@),
            chats: self.chats.view(),
            retries: Set::new(|p: (Seq<char>, i32)| retried(self.retries@, p.0, p.1)),
        }
    }
}

impl Store {
    /// The table is a table, and every message to be retried is there once.
    pub open spec fn wf(&self) -> bool {
        self.chats.wf() && retried_once(self.retries@)
    }
}

/// The cursors once those of some chats have been written, one after the other.
pub open spec fn cursors_written(cursors: Map<Seq<char>, i32>, chats: Seq<ChatData>) -> Map<
    Seq<char>,
    i32,
>
    decreases chats.len(),
{
    if chats.len() == 0 {
        cursors
    } else {
        cursors_written(cursors, chats.drop_last()).insert(
            chats.last().chat_id@,
            chats.last().last_read_message_id,
        )
    }
}

/// Whether one of some chats has that message to be retried.
pub open spec fn to_retry(chats: Seq<ChatData>, chat: Seq<char>, id: i32) -> bool {
    exists|i: int|
        0 <= i < chats.len() && (#[trigger] chats[i]).chat_id@ == chat
            && chats[i].ids_to_retry@.contains(id)
}

impl StoreView {
    /// The rows once everything has been written: files and messages to be
    /// retried are replaced; a chat that is not mentioned keeps its cursor.
    pub open spec fn saved(self, data: AppData) -> StoreView {
        StoreView {
            files: file_views(data.downloaded_file_ids@),
            chats: cursors_written(self.chats, data.chat@),
            retries: Set::new(|p: (Seq<char>, i32)| to_retry(data.chat@, p.0, p.1)),
        }
    }
}

fn copy_files(files: &Vec<(String, u64)>) -> (r: Vec<(String, u64)>)
    ensures
        file_views(r@) == file_views(files@),
{
    let mut r: Vec<(String, u64)> = Vec::new();
    let mut i: usize = 0;
    while i < files.len()
        invariant
            i <= files@.len(),
            file_views(r@) == file_views(files@).take(i as int),
        decreases files@.len() - i,
    {
        let ghost before = file_views(r@);
        let file = &files[i];
        r.push((file.0.as_str().to_owned(), file.1));
        assert(file_views(r@) =~= before.push((file.0@, file.1)));
        assert(file_views(files@).take(i + 1) =~= file_views(files@).take(i as int).push(
            (file.0@, file.1),
        ));
        i += 1;
    }
    assert(file_views(files@).take(i as int) =~= file_views(files@));
    r
}

/// Write everything that is remembered.
pub fn save(store: &mut Store, data: &AppData)
    requires
        old(store).wf(),
    ensures
        final(store).wf(),
        final(store)@ == old(store)@.saved(*data),
{
    let ghost start = store@;
    let ghost all = data.chat@;
    store.files = copy_files(&data.downloaded_file_ids);
    store.retries = Vec::new();
    let mut i: usize = 0;
    assert(all.take(0) =~= Seq::empty());
    while i < data.chat.len()
        invariant
            i <= data.chat@.len(),
            all == data.chat@,
            store.wf(),
            file_views(store.files@) == file_views(data.downloaded_file_ids@),
            store.chats.view() == cursors_written(start.chats, all.take(i as int)),
            forall|c: Seq<char>, id: i32| #[trigger]
                retried(store.retries@, c, id) <==> to_retry(all.take(i as int), c, id),
        decreases data.chat@.len() - i,
    {
        let chat = &data.chat[i];
        let ghost before = store.retries@;
        let ghost some = all.take(i as int);
        let ghost more = all.take(i + 1);
        assert(more.drop_last() =~= some);
        assert(more.last() == *chat);
        store.chats.insert(chat.chat_id.as_str(), chat.last_read_message_id);
        add_retries(&mut store.retries, chat.chat_id.as_str(), &chat.ids_to_retry);
        proof {
            assert forall|c: Seq<char>, id: i32| #[trigger]
                retried(store.retries@, c, id) <==> to_retry(more, c, id) by {
                assert(retried(before, c, id) <==> to_retry(some, c, id));
                if to_retry(some, c, id) {
                    let k = choose|k: int|
                        0 <= k < some.len() && (#[trigger] some[k]).chat_id@ == c
                            && some[k].ids_to_retry@.contains(id);
                    assert(more[k] == some[k]);
                }
                if c == chat.chat_id@ && chat.ids_to_retry@.contains(id) {
                    assert(more[i as int] == *chat);
                }
                if to_retry(more, c, id) {
                    let k = choose|k: int|
                        0 <= k < more.len() && (#[trigger] more[k]).chat_id@ == c
                            && more[k].ids_to_retry@.contains(id);
                    if k < i {
                        assert(some[k] == more[k]);
                    }
                }
            }
        }
        i += 1;
    }
    assert(all.take(i as int) =~= all);
    assert(store@.retries =~= start.saved(*data).retries);
}

/// The messages of one chat to be retried.
fn retries_of(retries: &Vec<(String, i32)>, chat: &str) -> (r: Vec<i32>)
    requires
        retried_once(retries@),
    ensures
        r@.no_duplicates(),
        forall|id: i32| #[trigger] r@.contains(id) <==> retried(retries@, chat@, id),
{
    let mut r: Vec<i32> = Vec::new();
    let mut i: usize = 0;
    while i < retries.len()
        invariant
            i <= retries@.len(),
            retried_once(retries@),
            r@.no_duplicates(),
            forall|id: i32| #[trigger]
                r@.contains(id) <==> exists|k: int|
                    0 <= k < i && (#[trigger] retries@[k]).0@ == chat@ && retries@[k].1 == id,
        decreases retries@.len() - i,
    {
        let ghost before = r@;
        if same_str(retries[i].0.as_str(), chat) {
            let id: i32 = retries[i].1;
            proof {
                if before.contains(id) {
                    let k = choose|k: int|
                        0 <= k < i && (#[trigger] retries@[k]).0@ == chat@ && retries@[k].1 == id;
                    assert(retries@[k].0@ == retries@[i as int].0@);
                }
            }
            r.push(id);
            proof {
                assert forall|x: i32| #[trigger]
                    r@.contains(x) <==> exists|k: int|
                        0 <= k < i + 1 && (#[trigger] retries@[k]).0@ == chat@ && retries@[k].1
                            == x by {
                    if r@.contains(x) {
                        let j = choose|j: int| 0 <= j < r@.len() && r@[j] == x;
                        if j < before.len() {
                            assert(before[j] == x);
                            assert(before.contains(x));
                        } else {
                            assert(retries@[i as int].1 == x);
                        }
                    }
                    if exists|k: int|
                        0 <= k < i + 1 && (#[trigger] retries@[k]).0@ == chat@ && retries@[k].1
                            == x {
                        let k = choose|k: int|
                            0 <= k < i + 1 && (#[trigger] retries@[k]).0@ == chat@ && retries@[k].1
                                == x;
                        if k < i {
                            assert(before.contains(x));
                            let j = choose|j: int| 0 <= j < before.len() && before[j] == x;
                            assert(r@[j] == x);
                        } else {
                            assert(r@[before.len() as int] == x);
                        }
                    }
                }
            }
        }
        i += 1;
    }
    r
}

/// Whether a chat is as the rows say.
pub open spec fn is_chat(store: StoreView, chat: ChatData) -> bool {
    &&& store.chats.contains_key(chat.chat_id@)
    &&& chat.last_read_message_id == store.chats[chat.chat_id@]
    &&& chat.ids_to_retry@.no_duplicates()
    &&& forall|id: i32| #[trigger]
        chat.ids_to_retry@.contains(id) <==> store.retries.contains((chat.chat_id@, id))
}

/// Whether a chat is among some.
pub open spec fn has_chat(chats: Seq<ChatData>, id: Seq<char>) -> bool {
    exists|i: int| 0 <= i < chats.len() && (#[trigger] chats[i]).chat_id@ == id
}

/// Whether every chat is there once.
pub open spec fn chats_once(chats: Seq<ChatData>) -> bool {
    forall|i: int, j: int|
        0 <= i < j < chats.len() ==> (#[trigger] chats[i]).chat_id@ != (#[trigger] chats[j]).chat_id@
}

/// Read everything that is remembered.
pub fn load(store: &Store) -> (r: AppData)
    requires
        store.wf(),
    ensures
        file_views(r.downloaded_file_ids@) == store@.files,
        chats_once(r.chat@),
        forall|k: Seq<char>| #[trigger] has_chat(r.chat@, k) <==> store@.chats.contains_key(k),
        forall|i: int| 0 <= i < r.chat@.len() ==> is_chat(store@, #[trigger] r.chat@[i]),
{
    let files = copy_files(&store.files);
    let keys = store.chats.keys();
    let mut chat: Vec<ChatData> = Vec::new();
    let mut i: usize = 0;
    while i < keys.len()
        invariant
            i <= keys@.len(),
            store.wf(),
            chat@.len() == i,
            forall|k: Seq<char>| #[trigger]
                store.chats.view().contains_key(k) <==> listed(keys@, k, keys@.len() as int),
            forall|a: int| 0 <= a < i ==> (#[trigger] chat@[a]).chat_id@ == keys@[a]@,
            forall|a: int| 0 <= a < i ==> is_chat(store@, #[trigger] chat@[a]),
        decreases keys@.len() - i,
    {
        let key = keys[i].as_str();
        let ids_to_retry = retries_of(&store.retries, key);
        proof {
            assert(keys@[i as int]@ == key@);
            assert(listed(keys@, key@, keys@.len() as int));
        }
        let last_read_message_id: i32 = match store.chats.get(key) {
            Some(n) => *n,
            None => 0,
        };
        let one = ChatData { chat_id: key.to_owned(), ids_to_retry, last_read_message_id };
        proof {
            assert forall|id: i32| #[trigger] one.ids_to_retry@.contains(id) <==> store@.retries.contains(
                (one.chat_id@, id),
            ) by {
                assert(retried(store.retries@, key@, id) <==> store@.retries.contains((key@, id)));
            }
        }
        chat.push(one);
        i += 1;
    }
    proof {
        assert forall|k: Seq<char>| #[trigger]
            has_chat(chat@, k) <==> store@.chats.contains_key(k) by {
            if store@.chats.contains_key(k) {
                assert(listed(keys@, k, keys@.len() as int));
                let j = choose|j: int| 0 <= j < keys@.len() && (#[trigger] keys@[j])@ == k;
                assert(chat@[j].chat_id@ == k);
            }
        }
        assert forall|a: int, b: int| 0 <= a < b < chat@.len() implies (
        #[trigger] chat@[a]).chat_id@ != (#[trigger] chat@[b]).chat_id@ by {
            assert(keys@[a]@ != keys@[b]@);
        }
    }
    AppData { chat, downloaded_file_ids: files }
}

proof fn lemma_written(cursors: Map<Seq<char>, i32>, chats: Seq<ChatData>, i: int)
    requires
        chats_once(chats),
        0 <= i < chats.len(),
    ensures
        cursors_written(cursors, chats).contains_key(chats[i].chat_id@),
        cursors_written(cursors, chats)[chats[i].chat_id@] == chats[i].last_read_message_id,
    decreases chats.len(),
{
    if i < chats.len() - 1 {
        let t = chats.drop_last();
        assert(chats_once(t)) by {
            assert forall|a: int, b: int| 0 <= a < b < t.len() implies (#[trigger] t[a]).chat_id@
                != (#[trigger] t[b]).chat_id@ by {
                assert(chats[a].chat_id@ != chats[b].chat_id@);
            }
        }
        lemma_written(cursors, t, i);
        assert(t[i] == chats[i]);
        assert(chats[i].chat_id@ != chats[chats.len() - 1].chat_id@);
    }
}

/// What was written is read back: the files, and of every chat its cursor and the
/// messages to be retried.
pub proof fn law_what_is_saved_is_loaded(store: StoreView, data: AppData, i: int, id: i32)
    requires
        chats_once(data.chat@),
        0 <= i < data.chat@.len(),
    ensures
        ({
            let after = store.saved(data);
            let chat = data.chat@[i];
            &&& after.files == file_views(data.downloaded_file_ids@)
            &&& after.chats.contains_key(chat.chat_id@)
            &&& after.chats[chat.chat_id@] == chat.last_read_message_id
            &&& after.retries.contains((chat.chat_id@, id)) <==> chat.ids_to_retry@.contains(id)
        }),
{
    lemma_written(store.chats, data.chat@, i);
    let chat = data.chat@[i];
    if to_retry(data.chat@, chat.chat_id@, id) {
        let k = choose|k: int|
            0 <= k < data.chat@.len() && (#[trigger] data.chat@[k]).chat_id@ == chat.chat_id@
                && data.chat@[k].ids_to_retry@.contains(id);
        if k < i {
            assert(data.chat@[k].chat_id@ != data.chat@[i].chat_id@);
        } else if i < k {
            assert(data.chat@[i].chat_id@ != data.chat@[k].chat_id@);
        }
    }
}

} // verus!
