//! JSON overlays used by provider configuration endpoints.
use vstd::prelude::*;
use crate::text::{digits_at_most, parse_digits, same_str, to_chars};

verus! {

/// A JSON value. The members of an object are in the order in which they came;
/// a number is held as it is written.
#[derive(Debug, PartialEq, Eq)]
pub enum Json {
    Null,
    Bool(bool),
    Number(String),
    Text(String),
    Array(Vec<Json>),
    Object(Vec<(String, Json)>),
}

/// What a JSON value is.
pub enum JsonView {
    Null,
    Bool(bool),
    Number(Seq<char>),
    Text(Seq<char>),
    Array(Seq<JsonView>),
    Object(Seq<(Seq<char>, JsonView)>),
}

impl View for Json {
    type V = JsonView;

    open spec fn view(&self) -> JsonView {
        json_view(*self)
    }
}

/// What a JSON value is.
pub open spec fn json_view(j: Json) -> JsonView
    decreases j, 0nat,
{
    match j {
        Json::Null => JsonView::Null,
        Json::Bool(b) => JsonView::Bool(b),
        Json::Number(n) => JsonView::Number(n@),
        Json::Text(t) => JsonView::Text(t@),
        Json::Array(v) => JsonView::Array(json_items(v, v@.len())),
        Json::Object(v) => JsonView::Object(json_members(v, v@.len())),
    }
}

/// What the first `n` items of an array are.
pub open spec fn json_items(v: Vec<Json>, n: nat) -> Seq<JsonView>
    decreases v, n,
{
    if n == 0 || n > v.len() {
        Seq::empty()
    } else {
        json_items(v, (n - 1) as nat).push(json_view(v[n - 1]))
    }
}

/// What the first `n` members of an object are.
pub open spec fn json_members(v: Vec<(String, Json)>, n: nat) -> Seq<(Seq<char>, JsonView)>
    decreases v, n,
{
    if n == 0 || n > v.len() {
        Seq::empty()
    } else {
        json_members(v, (n - 1) as nat).push((v[n - 1].0@, json_view(v[n - 1].1)))
    }
}

/// What the members of an object are.
pub open spec fn member_views(v: Seq<(String, Json)>) -> Seq<(Seq<char>, JsonView)> {
    Seq::new(v.len(), |i: int| (v[i].0@, v[i].1@))
}

/// What the items of an array are.
pub open spec fn item_views(v: Seq<Json>) -> Seq<JsonView> {
    Seq::new(v.len(), |i: int| v[i]@)
}

/// The first member named `key` from `i` on; the number of members where there
/// is none.
pub open spec fn member_at(
    members: Seq<(Seq<char>, JsonView)>,
    key: Seq<char>,
    i: int,
) -> int
    decreases members.len() - i,
{
    if i < 0 || i >= members.len() {
        members.len() as int
    } else if members[i].0 == key {
        i
    } else {
        member_at(members, key, i + 1)
    }
}

/// `base` overlaid by `patch`: objects merge member by member; anything else is
/// replaced.
pub open spec fn merged(base: JsonView, patch: JsonView) -> JsonView
    decreases patch, 0nat,
{
    match (base, patch) {
        (JsonView::Object(b), JsonView::Object(p)) => JsonView::Object(overlaid(b, p, p.len())),
        _ => patch,
    }
}

/// `base` overlaid by the first `n` members of `patch`: a member that the base
/// has is merged in its place, any other is appended.
pub open spec fn overlaid(
    base: Seq<(Seq<char>, JsonView)>,
    patch: Seq<(Seq<char>, JsonView)>,
    n: nat,
) -> Seq<(Seq<char>, JsonView)>
    decreases patch, n,
{
    if n == 0 || n > patch.len() {
        base
    } else {
        let done = overlaid(base, patch, (n - 1) as nat);
        let key = patch[n - 1].0;
        let value = patch[n - 1].1;
        let i = member_at(done, key, 0);
        if 0 <= i < done.len() {
            done.update(i, (key, merged(done[i].1, value)))
        } else {
            done.push((key, value))
        }
    }
}

proof fn lemma_members(v: Vec<(String, Json)>, n: nat)
    requires
        n <= v@.len(),
    ensures
        json_members(v, n) == member_views(v@.take(n as int)),
    decreases n,
{
    if n > 0 {
        lemma_members(v, (n - 1) as nat);
        assert(member_views(v@.take(n as int)) =~= member_views(v@.take(n - 1)).push(
            (v@[n - 1].0@, v@[n - 1].1@),
        ));
    } else {
        assert(member_views(v@.take(0)) =~= Seq::empty());
    }
}

proof fn lemma_object_view(v: Vec<(String, Json)>)
    ensures
        Json::Object(v)@ == JsonView::Object(member_views(v@)),
{
    lemma_members(v, v@.len());
    assert(v@.take(v@.len() as int) =~= v@);
}

proof fn lemma_items(v: Vec<Json>, n: nat)
    requires
        n <= v@.len(),
    ensures
        json_items(v, n) == item_views(v@.take(n as int)),
    decreases n,
{
    if n > 0 {
        lemma_items(v, (n - 1) as nat);
        assert(item_views(v@.take(n as int)) =~= item_views(v@.take(n - 1)).push(v@[n - 1]@));
    } else {
        assert(item_views(v@.take(0)) =~= Seq::empty());
    }
}

proof fn lemma_array_view(v: Vec<Json>)
    ensures
        Json::Array(v)@ == JsonView::Array(item_views(v@)),
{
    lemma_items(v, v@.len());
    assert(v@.take(v@.len() as int) =~= v@);
}

impl Json {
    /// A copy of the value.
    pub fn copy(&self) -> (r: Json)
        ensures
            r@ == self@,
        decreases self,
    {
        match self {
            Json::Null => Json::Null,
            Json::Bool(b) => Json::Bool(*b),
            Json::Number(n) => Json::Number(n.clone()),
            Json::Text(t) => Json::Text(t.clone()),
            Json::Array(v) => {
                let mut out: Vec<Json> = Vec::new();
                let mut i: usize = 0;
                while i < v.len()
                    invariant
                        self is Array && self->Array_0 == *v,
                        i <= v@.len(),
                        out@.len() == i,
                        forall|k: int| 0 <= k < i ==> (#[trigger] out@[k])@ == v@[k]@,
                    decreases v@.len() - i,
                {
                    assert(decreases_to!(*self => self->Array_0));
                    assert(decreases_to!(*v => v[i as int]));
                    out.push(v[i].copy());
                    i += 1;
                }
                proof {
                    lemma_array_view(*v);
                    lemma_array_view(out);
                    assert(item_views(out@) =~= item_views(v@));
                }
                Json::Array(out)
            },
            Json::Object(v) => {
                let mut out: Vec<(String, Json)> = Vec::new();
                let mut i: usize = 0;
                while i < v.len()
                    invariant
                        self is Object && self->Object_0 == *v,
                        i <= v@.len(),
                        out@.len() == i,
                        forall|k: int|
                            0 <= k < i ==> (#[trigger] out@[k]).0@ == v@[k].0@ && out@[k].1@
                                == v@[k].1@,
                    decreases v@.len() - i,
                {
                    assert(decreases_to!(*self => self->Object_0));
                    assert(decreases_to!(*v => v[i as int]));
                    out.push((v[i].0.clone(), v[i].1.copy()));
                    i += 1;
                }
                proof {
                    lemma_object_view(*v);
                    lemma_object_view(out);
                    assert(member_views(out@) =~= member_views(v@));
                }
                Json::Object(out)
            },
        }
    }
}

fn find_member(members: &Vec<(String, Json)>, key: &str) -> (r: usize)
    ensures
        r == member_at(member_views(members@), key@, 0),
        r <= members@.len(),
{
    let ghost all = member_views(members@);
    let mut i: usize = 0;
    while i < members.len()
        invariant
            i <= members@.len(),
            all == member_views(members@),
            member_at(all, key@, 0) == member_at(all, key@, i as int),
        decreases members@.len() - i,
    {
        if same_str(members[i].0.as_str(), key) {
            return i;
        }
        i += 1;
    }
    i
}

fn merge_ref(base: &mut Json, patch: &Json)
    ensures
        final(base)@ == merged(old(base)@, patch@),
    decreases patch,
{
    match patch {
        Json::Object(entries) => {
            let mut taken = Json::Null;
            std::mem::swap(base, &mut taken);
            match taken {
                Json::Object(members) => {
                    let mut members = members;
                    let ghost start = member_views(members@);
                    let ghost p = member_views(entries@);
                    proof {
                        lemma_object_view(members);
                        lemma_object_view(*entries);
                    }
                    let mut n: usize = 0;
                    while n < entries.len()
                        invariant
                            patch is Object && patch->Object_0 == *entries,
                            n <= entries@.len(),
                            p == member_views(entries@),
                            member_views(members@) == overlaid(start, p, n as nat),
                        decreases entries@.len() - n,
                    {
                        let ghost before = member_views(members@);
                        assert(decreases_to!(*patch => patch->Object_0));
                        assert(decreases_to!(*entries => entries[n as int]));
                        let key = &entries[n].0;
                        let value = &entries[n].1;
                        let i = find_member(&members, key.as_str());
                        if i < members.len() {
                            let (name, slot) = members.remove(i);
                            let mut slot = slot;
                            merge_ref(&mut slot, value);
                            members.insert(i, (name, slot));
                            proof {
                                lemma_member_at(before, key@, 0);
                                assert(member_views(members@) =~= before.update(
                                    i as int,
                                    (key@, merged(before[i as int].1, value@)),
                                ));
                            }
                        } else {
                            members.push((key.clone(), value.copy()));
                            assert(member_views(members@) =~= before.push((key@, value@)));
                        }
                        n += 1;
                    }
                    proof {
                        lemma_object_view(members);
                    }
                    *base = Json::Object(members);
                },
                _ => {
                    *base = patch.copy();
                },
            }
        },
        _ => {
            *base = patch.copy();
        },
    }
}

proof fn lemma_member_at(members: Seq<(Seq<char>, JsonView)>, key: Seq<char>, i: int)
    requires
        0 <= i <= members.len(),
    ensures
        i <= member_at(members, key, i) <= members.len(),
        member_at(members, key, i) < members.len() ==> members[member_at(members, key, i)].0 == key,
        forall|k: int| i <= k < member_at(members, key, i) ==> (#[trigger] members[k]).0 != key,
    decreases members.len() - i,
{
    if i < members.len() && members[i].0 != key {
        lemma_member_at(members, key, i + 1);
    }
}

/// Objects merge recursively; arrays and scalars replace. An explicit null
/// stays in the result, so that an optional setting can be cleared.
pub fn merge_json(base: &mut Json, patch: Json)
    ensures
        final(base)@ == merged(old(base)@, patch@),
{
    merge_ref(base, &patch);
}

/// What a member of an object is, where the object has it.
pub open spec fn member(members: Seq<(Seq<char>, JsonView)>, key: Seq<char>) -> Option<JsonView> {
    let i = member_at(members, key, 0);
    if 0 <= i < members.len() {
        Some(members[i].1)
    } else {
        None
    }
}

/// What a value holds under a name, where it is an object that has it.
pub open spec fn named(j: JsonView, key: Seq<char>) -> Option<JsonView> {
    match j {
        JsonView::Object(members) => member(members, key),
        _ => None,
    }
}

/// The text that a value holds under a name.
pub open spec fn text_of(j: JsonView, key: Seq<char>) -> Option<Seq<char>> {
    match named(j, key) {
        Some(JsonView::Text(t)) => Some(t),
        _ => None,
    }
}

/// The truth value that a value holds under a name.
pub open spec fn flag_of(j: JsonView, key: Seq<char>) -> Option<bool> {
    match named(j, key) {
        Some(JsonView::Bool(b)) => Some(b),
        _ => None,
    }
}

/// The unsigned number that a value holds under a name.
pub open spec fn count_of(j: JsonView, key: Seq<char>) -> Option<nat> {
    match named(j, key) {
        Some(JsonView::Number(n)) => parse_digits(n, u64::MAX as nat),
        _ => None,
    }
}

impl Json {
    /// What the value holds under a name.
    pub fn get(&self, key: &str) -> (r: Option<&Json>)
        ensures
            match r {
                Some(v) => named(self@, key@) == Some(v@),
                None => named(self@, key@) is None,
            },
    {
        match self {
            Json::Object(members) => {
                proof {
                    lemma_object_view(*members);
                }
                let i = find_member(members, key);
                if i < members.len() {
                    Some(&members[i].1)
                } else {
                    None
                }
            },
            _ => None,
        }
    }

    /// The text that the value holds under a name.
    pub fn text(&self, key: &str) -> (r: Option<String>)
        ensures
            match r {
                Some(t) => text_of(self@, key@) == Some(t@),
                None => text_of(self@, key@) is None,
            },
    {
        match self.get(key) {
            Some(Json::Text(t)) => Some(t.as_str().to_owned()),
            _ => None,
        }
    }

    /// The truth value that the value holds under a name.
    pub fn flag(&self, key: &str) -> (r: Option<bool>)
        ensures
            r == flag_of(self@, key@),
    {
        match self.get(key) {
            Some(Json::Bool(b)) => Some(*b),
            _ => None,
        }
    }

    /// The unsigned number that the value holds under a name.
    pub fn count(&self, key: &str) -> (r: Option<u64>)
        ensures
            match r {
                Some(n) => count_of(self@, key@) == Some(n as nat),
                None => count_of(self@, key@) is None,
            },
    {
        match self.get(key) {
            Some(Json::Number(n)) => digits_at_most(to_chars(n.as_str()).as_slice(), u64::MAX),
            _ => None,
        }
    }
}

proof fn lemma_member_of_update(
    members: Seq<(Seq<char>, JsonView)>,
    at: int,
    value: JsonView,
    key: Seq<char>,
    i: int,
)
    requires
        0 <= i <= members.len(),
        0 <= at < members.len(),
    ensures
        member_at(members.update(at, (members[at].0, value)), key, i) == member_at(
            members,
            key,
            i,
        ),
    decreases members.len() - i,
{
    if i < members.len() && members[i].0 != key {
        lemma_member_of_update(members, at, value, key, i + 1);
    }
}

proof fn lemma_member_of_push(
    members: Seq<(Seq<char>, JsonView)>,
    last: (Seq<char>, JsonView),
    key: Seq<char>,
    i: int,
)
    requires
        0 <= i <= members.len(),
    ensures
        ({
            let at = member_at(members, key, i);
            member_at(members.push(last), key, i) == (if at < members.len() {
                at
            } else if last.0 == key {
                members.len() as int
            } else {
                members.len() as int + 1
            })
        }),
    decreases members.len() - i,
{
    let more = members.push(last);
    if i < members.len() {
        assert(more[i] == members[i]);
        if members[i].0 != key {
            lemma_member_of_push(members, last, key, i + 1);
        }
    } else {
        assert(more[i] == last);
        assert(member_at(more, key, i + 1) == more.len());
    }
}

/// A member that the patch does not name stays as it was.
pub proof fn law_unnamed_members_stay(
    base: Seq<(Seq<char>, JsonView)>,
    patch: Seq<(Seq<char>, JsonView)>,
    n: nat,
    key: Seq<char>,
)
    requires
        n <= patch.len(),
        forall|k: int| 0 <= k < n ==> (#[trigger] patch[k]).0 != key,
    ensures
        member(overlaid(base, patch, n), key) == member(base, key),
    decreases n,
{
    if n > 0 {
        let m = (n - 1) as nat;
        law_unnamed_members_stay(base, patch, m, key);
        let done = overlaid(base, patch, m);
        let name = patch[n - 1].0;
        let value = patch[n - 1].1;
        let i = member_at(done, name, 0);
        lemma_member_at(done, name, 0);
        lemma_member_at(done, key, 0);
        if i < done.len() {
            lemma_member_of_update(done, i, merged(done[i].1, value), key, 0);
        } else {
            lemma_member_of_push(done, (name, value), key, 0);
        }
    }
}

/// The last member of a patch has its say: the merged object holds the value
/// merged into what was there, or the value itself.
pub proof fn law_named_member_is_merged(
    base: Seq<(Seq<char>, JsonView)>,
    patch: Seq<(Seq<char>, JsonView)>,
    n: nat,
)
    requires
        0 < n <= patch.len(),
    ensures
        ({
            let before = member(overlaid(base, patch, (n - 1) as nat), patch[n - 1].0);
            member(overlaid(base, patch, n), patch[n - 1].0) == Some(
                match before {
                    Some(old_value) => merged(old_value, patch[n - 1].1),
                    None => patch[n - 1].1,
                },
            )
        }),
{
    let done = overlaid(base, patch, (n - 1) as nat);
    let name = patch[n - 1].0;
    let value = patch[n - 1].1;
    let i = member_at(done, name, 0);
    lemma_member_at(done, name, 0);
    if i < done.len() {
        lemma_member_of_update(done, i, merged(done[i].1, value), name, 0);
    } else {
        lemma_member_of_push(done, (name, value), name, 0);
    }
}

/// Anything but an object replaces what was there, and anything but an object is
/// replaced.
pub proof fn law_scalars_replace(base: JsonView, patch: JsonView)
    requires
        !(base is Object && patch is Object),
    ensures
        merged(base, patch) == patch,
{
}

/// Whether no two members have the same name.
pub open spec fn distinct(members: Seq<(Seq<char>, JsonView)>) -> bool {
    forall|i: int, j: int|
        0 <= i < j < members.len() ==> (#[trigger] members[i]).0 != (#[trigger] members[j]).0
}

/// Whether no two members of an object have the same name, and none of its
/// members has such members. Arrays are replaced whole, whatever they hold.
pub open spec fn tidy(j: JsonView) -> bool
    decreases j,
{
    match j {
        JsonView::Object(m) => distinct(m) && forall|i: int|
            #![trigger m[i]]
            0 <= i < m.len() ==> tidy(m[i].1),
        _ => true,
    }
}

proof fn lemma_stays(
    base: Seq<(Seq<char>, JsonView)>,
    patch: Seq<(Seq<char>, JsonView)>,
    m: nat,
    n: nat,
    key: Seq<char>,
)
    requires
        m <= n <= patch.len(),
        forall|k: int| m <= k < n ==> (#[trigger] patch[k]).0 != key,
    ensures
        member(overlaid(base, patch, n), key) == member(overlaid(base, patch, m), key),
    decreases n,
{
    if m < n {
        let l = (n - 1) as nat;
        lemma_stays(base, patch, m, l, key);
        let done = overlaid(base, patch, l);
        let name = patch[n - 1].0;
        let value = patch[n - 1].1;
        let i = member_at(done, name, 0);
        lemma_member_at(done, name, 0);
        lemma_member_at(done, key, 0);
        if i < done.len() {
            lemma_member_of_update(done, i, merged(done[i].1, value), key, 0);
        } else {
            lemma_member_of_push(done, (name, value), key, 0);
        }
    }
}

/// Objects merge member by member: what only one of them names is as it is there,
/// what both name is merged, and there is nothing else.
pub proof fn law_objects_merge_by_members(
    base: Seq<(Seq<char>, JsonView)>,
    patch: Seq<(Seq<char>, JsonView)>,
    key: Seq<char>,
)
    requires
        distinct(patch),
    ensures
        member(overlaid(base, patch, patch.len()), key) == (match (
            member(base, key),
            member(patch, key),
        ) {
            (Some(b), Some(p)) => Some(merged(b, p)),
            (None, Some(p)) => Some(p),
            (b, None) => b,
        }),
{
    let k = member_at(patch, key, 0);
    lemma_member_at(patch, key, 0);
    law_unnamed_members_stay(base, patch, k as nat, key);
    if k < patch.len() {
        law_named_member_is_merged(base, patch, (k + 1) as nat);
        assert forall|j: int| k + 1 <= j < patch.len() implies (#[trigger] patch[j]).0 != key by {
            assert(patch[k].0 == key);
        }
        lemma_stays(base, patch, (k + 1) as nat, patch.len(), key);
    }
}

proof fn lemma_tidy_member(m: Seq<(Seq<char>, JsonView)>, i: int)
    requires
        tidy(JsonView::Object(m)),
        0 <= i < m.len(),
    ensures
        tidy(m[i].1),
{
}

proof fn lemma_merged_with_itself(j: JsonView)
    requires
        tidy(j),
    ensures
        merged(j, j) == j,
    decreases j, 0nat,
{
    if let JsonView::Object(m) = j {
        lemma_overlaid_by_itself(m, m.len());
    }
}

proof fn lemma_overlaid_by_itself(m: Seq<(Seq<char>, JsonView)>, n: nat)
    requires
        tidy(JsonView::Object(m)),
        n <= m.len(),
    ensures
        overlaid(m, m, n) == m,
    decreases m, n,
{
    if n > 0 {
        let k = n - 1;
        lemma_overlaid_by_itself(m, k as nat);
        lemma_tidy_member(m, k);
        lemma_merged_with_itself(m[k].1);
        lemma_member_at(m, m[k].0, 0);
        let i = member_at(m, m[k].0, 0);
        if i < k {
            assert(m[i].0 != m[k].0);
        }
        assert(m.update(k, (m[k].0, m[k].1)) =~= m);
    }
}

/// Applying a patch a second time changes nothing.
pub proof fn law_patches_are_idempotent(base: JsonView, patch: JsonView)
    requires
        tidy(patch),
    ensures
        merged(merged(base, patch), patch) == merged(base, patch),
    decreases patch, 1nat,
{
    lemma_merged_with_itself(patch);
    match (base, patch) {
        (JsonView::Object(b), JsonView::Object(p)) => {
            lemma_settled(b, p, p.len());
            lemma_overlaid_again(overlaid(b, p, p.len()), p, p.len());
        },
        _ => {},
    }
}

/// Whether a member of a patch has nothing more to change.
spec fn settled(done: Seq<(Seq<char>, JsonView)>, key: Seq<char>, value: JsonView) -> bool {
    let i = member_at(done, key, 0);
    0 <= i < done.len() && merged(done[i].1, value) == done[i].1
}

proof fn lemma_settled(
    base: Seq<(Seq<char>, JsonView)>,
    patch: Seq<(Seq<char>, JsonView)>,
    n: nat,
)
    requires
        tidy(JsonView::Object(patch)),
        n <= patch.len(),
    ensures
        forall|k: int|
            0 <= k < n ==> settled(
                overlaid(base, patch, n),
                (#[trigger] patch[k]).0,
                patch[k].1,
            ),
    decreases patch, n,
{
    if n > 0 {
        let l = (n - 1) as nat;
        lemma_settled(base, patch, l);
        let done = overlaid(base, patch, l);
        let after = overlaid(base, patch, n);
        let (name, value) = patch[n - 1];
        let i = member_at(done, name, 0);
        lemma_member_at(done, name, 0);
        lemma_tidy_member(patch, n - 1);
        if i < done.len() {
            law_patches_are_idempotent(done[i].1, value);
        } else {
            lemma_merged_with_itself(value);
        }
        assert forall|k: int| 0 <= k < n implies settled(
            after,
            (#[trigger] patch[k]).0,
            patch[k].1,
        ) by {
            let key = patch[k].0;
            lemma_member_at(done, key, 0);
            if k < n - 1 {
                assert(settled(done, key, patch[k].1));
                assert(key != name);
            }
            if i < done.len() {
                lemma_member_of_update(done, i, merged(done[i].1, value), key, 0);
            } else {
                lemma_member_of_push(done, (name, value), key, 0);
            }
        }
    }
}

proof fn lemma_overlaid_again(
    done: Seq<(Seq<char>, JsonView)>,
    patch: Seq<(Seq<char>, JsonView)>,
    n: nat,
)
    requires
        n <= patch.len(),
        forall|k: int|
            0 <= k < patch.len() ==> settled(done, (#[trigger] patch[k]).0, patch[k].1),
    ensures
        overlaid(done, patch, n) == done,
    decreases n,
{
    if n > 0 {
        lemma_overlaid_again(done, patch, (n - 1) as nat);
        let (name, value) = patch[n - 1];
        assert(settled(done, name, value));
        lemma_member_at(done, name, 0);
        let i = member_at(done, name, 0);
        assert(done.update(i, (name, done[i].1)) =~= done);
    }
}

} // verus!
