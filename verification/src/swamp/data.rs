//! Versioned data artifacts, and how the replies that list them are put
//! in order.
use vstd::prelude::*;
use vstd::string::*;
use crate::error::Error;
use crate::json::{
    key_less, key_lt, lemma_key_lt_irreflexive, lemma_key_lt_total, lemma_key_lt_transitive, Json, JsonValue,
};
use crate::text::str_eq;

verus! {

/// Metadata of one data artifact.
pub struct DataArtifact {
    pub id: String,
    pub name: String,
    pub model_id: String,
    pub model_name: String,
    pub version: u64,
    pub content_type: String,
    pub data_type: String,
    pub streaming: bool,
    pub size: u64,
    pub created_at: String,
    pub lifetime: String,
    pub owner_type: String,
    pub tags: Tags,
}

/// An artifact's tags: a string value for each string key, each key once
/// and the keys in ascending order, as a `BTreeMap<String, String>` holds
/// them.
pub struct Tags {
    entries: Vec<(String, String)>,
}

/// Keys strictly ascending, hence no key twice.
pub open spec fn tags_ordered(t: Seq<(Seq<char>, Seq<char>)>) -> bool {
    forall|i: int, j: int| 0 <= i < j < t.len() ==> key_lt(#[trigger] t[i].0, #[trigger] t[j].0)
}

impl View for Tags {
    type V = Seq<(Seq<char>, Seq<char>)>;

    closed spec fn view(&self) -> Seq<(Seq<char>, Seq<char>)> {
        tag_views(self.entries@)
    }
}

/// Placing `(key, value)` after the keys below `key`, and past the pair
/// that held `key` if there was one, keeps the keys ascending and holds
/// exactly the pair set and the other pairs.
proof fn lemma_tags_placed(t: Seq<(Seq<char>, Seq<char>)>, key: Seq<char>, value: Seq<char>, p: int, q: int)
    requires
        tags_ordered(t),
        0 <= p <= t.len(),
        forall|j: int| 0 <= j < p ==> key_lt(#[trigger] t[j].0, key),
        q == p || q == p + 1,
        q == p + 1 ==> p < t.len() && t[p].0 == key,
        q == p ==> (p == t.len() || (!key_lt(t[p].0, key) && t[p].0 != key)),
    ensures
        tags_ordered(t.take(p).push((key, value)) + t.skip(q)),
        forall|k: Seq<char>, v: Seq<char>|
            #[trigger] (t.take(p).push((key, value)) + t.skip(q)).contains((k, v)) <==> ((k == key && v == value) || (k
                != key && t.contains((k, v)))),
{
    let out = t.take(p).push((key, value)) + t.skip(q);
    lemma_key_lt_irreflexive(key);
    assert forall|j: int| q <= j < t.len() implies key_lt(key, #[trigger] t[j].0) by {
        if q == p + 1 {
            assert(key_lt(t[p].0, t[j].0));
        } else {
            lemma_key_lt_total(key, t[p].0);
            if j > p {
                assert(key_lt(t[p].0, t[j].0));
                lemma_key_lt_transitive(key, t[p].0, t[j].0);
            }
        }
    }
    assert(out.len() == p + 1 + t.len() - q);
    assert forall|j: int| 0 <= j < out.len() implies #[trigger] out[j] == (if j < p {
        t[j]
    } else if j == p {
        (key, value)
    } else {
        t[j - p - 1 + q]
    }) by {}
    assert forall|a: int, b: int| 0 <= a < b < out.len() implies key_lt(#[trigger] out[a].0, #[trigger] out[b].0) by {
        if b > p && a < p {
            assert(key_lt(t[a].0, t[b - p - 1 + q].0));
        } else if b > p && a > p {
            assert(key_lt(t[a - p - 1 + q].0, t[b - p - 1 + q].0));
        }
    }
    assert forall|k: Seq<char>, v: Seq<char>| #[trigger] out.contains((k, v)) implies ((k == key && v == value) || (k
        != key && t.contains((k, v)))) by {
        let j = choose|j: int| 0 <= j < out.len() && out[j] == (k, v);
        if j < p {
            assert(t[j] == (k, v));
            assert(key_lt(t[j].0, key));
        } else if j > p {
            let i = j - p - 1 + q;
            assert(t[i] == (k, v));
            assert(key_lt(key, t[i].0));
        }
    }
    assert forall|k: Seq<char>, v: Seq<char>|
        ((k == key && v == value) || (k != key && t.contains((k, v)))) implies #[trigger] out.contains((k, v)) by {
        if k == key && v == value {
            assert(out[p] == (key, value));
        } else {
            let i = choose|i: int| 0 <= i < t.len() && t[i] == (k, v);
            if i < p {
                assert(out[i] == t[i]);
            } else if i >= q {
                assert(out[i + p + 1 - q] == t[i]);
            } else {
                assert(t[i].0 == key);
            }
        }
    }
}

impl Tags {
    #[verifier::type_invariant]
    spec fn ordered(self) -> bool {
        tags_ordered(tag_views(self.entries@))
    }

    /// No tags.
    pub fn new() -> (r: Tags)
        ensures
            r@ == Seq::<(Seq<char>, Seq<char>)>::empty(),
    {
        let r = Tags { entries: Vec::new() };
        proof {
            assert(tag_views(r.entries@) =~= Seq::<(Seq<char>, Seq<char>)>::empty());
        }
        r
    }

    /// The pairs, in ascending key order.
    pub fn entries(&self) -> (r: &Vec<(String, String)>)
        ensures
            tag_views(r@) == self@,
            tags_ordered(self@),
    {
        proof {
            use_type_invariant(self);
        }
        &self.entries
    }

    /// A copy of the tags.
    pub fn copy(&self) -> (r: Tags)
        ensures
            r@ == self@,
    {
        proof {
            use_type_invariant(self);
        }
        Tags { entries: copy_tags(&self.entries) }
    }

    /// Sets `key` to `value` (`BTreeMap::insert`): afterwards the tags hold
    /// that pair and every pair they held with another key, and nothing
    /// else; the keys stay ascending.
    pub fn insert(&mut self, key: String, value: String)
        ensures
            tags_ordered(final(self)@),
            forall|k: Seq<char>, v: Seq<char>|
                #[trigger] final(self)@.contains((k, v)) <==> ((k == key@ && v == value@) || (k != key@ && old(
                    self,
                )@.contains((k, v)))),
    {
        proof {
            use_type_invariant(&*self);
        }
        let ghost t = tag_views(self.entries@);
        let ghost kv = (key@, value@);
        let n = self.entries.len();
        let mut p: usize = 0;
        while p < n
            invariant
                n == self.entries.len(),
                p <= n,
                t == tag_views(self.entries@),
                kv == (key@, value@),
                forall|j: int| 0 <= j < p ==> key_lt(#[trigger] t[j].0, kv.0),
            ensures
                p <= n,
                forall|j: int| 0 <= j < p ==> key_lt(#[trigger] t[j].0, kv.0),
                p == n || !key_lt(t[p as int].0, kv.0),
            decreases n - p,
        {
            proof {
                assert(t[p as int].0 == self.entries@[p as int].0@);
            }
            if !key_less(self.entries[p].0.as_str(), key.as_str()) {
                break;
            }
            p = p + 1;
        }
        let found = p < n && str_eq(self.entries[p].0.as_str(), key.as_str());
        let q: usize = if found {
            p + 1
        } else {
            p
        };
        let mut out: Vec<(String, String)> = Vec::new();
        let mut i: usize = 0;
        while i < p
            invariant
                i <= p <= n,
                n == self.entries.len(),
                t == tag_views(self.entries@),
                tag_views(out@) == t.take(i as int),
            decreases p - i,
        {
            let ghost before = out@;
            out.push((self.entries[i].0.clone(), self.entries[i].1.clone()));
            proof {
                assert(tag_views(out@) =~= tag_views(before).push(t[i as int]));
                assert(tag_views(out@) =~= t.take(i as int + 1));
            }
            i = i + 1;
        }
        let ghost before = out@;
        out.push((key, value));
        proof {
            assert(tag_views(out@) =~= t.take(p as int).push(kv));
        }
        let mut j: usize = q;
        while j < n
            invariant
                q <= j <= n,
                n == self.entries.len(),
                t == tag_views(self.entries@),
                tag_views(out@) == t.take(p as int).push(kv) + t.skip(q as int).take(j - q),
            decreases n - j,
        {
            let ghost before = out@;
            out.push((self.entries[j].0.clone(), self.entries[j].1.clone()));
            proof {
                assert(tag_views(out@) =~= tag_views(before).push(t[j as int]));
                assert(t.skip(q as int).take(j + 1 - q) =~= t.skip(q as int).take(j - q).push(t[j as int]));
                assert(tag_views(out@) =~= t.take(p as int).push(kv) + t.skip(q as int).take(j + 1 - q));
            }
            j = j + 1;
        }
        proof {
            assert(t.skip(q as int).take(n - q) =~= t.skip(q as int));
            lemma_tags_placed(t, kv.0, kv.1, p as int, q as int);
        }
        self.entries = out;
    }
}

/// One version of a data artifact with its content.
pub struct DataContent {
    pub id: String,
    pub name: String,
    pub model_id: String,
    pub model_name: String,
    pub version: u64,
    pub content_type: String,
    pub data_type: String,
    pub size: u64,
    pub created_at: String,
    pub lifetime: String,
    pub streaming: bool,
    pub tags: Tags,
    pub owner_type: String,
    pub owner_definition: Option<OwnerDefinition>,
    pub content: JsonValue,
}

pub struct OwnerDefinition {
    pub owner_type: String,
    pub owner_ref: String,
}

/// One stored version of an artifact.
pub struct DataVersion {
    pub version: u64,
    pub created_at: String,
    pub size: u64,
    pub checksum: String,
    pub is_latest: bool,
}

/// The reply listing a model's data, grouped by data type.
pub struct DataListResponse {
    pub model_id: String,
    pub model_name: String,
    pub groups: Vec<DataGroup>,
}

pub struct DataGroup {
    pub data_type: String,
    pub items: Vec<DataArtifact>,
}

/// The reply listing an artifact's versions.
pub struct VersionsResponse {
    pub versions: Vec<DataVersion>,
}

/// The reply of a data query.
pub struct QueryResponse {
    pub results: Vec<DataContent>,
}

/// Model of an artifact's metadata.
pub struct ArtifactView {
    pub id: Seq<char>,
    pub name: Seq<char>,
    pub model_id: Seq<char>,
    pub model_name: Seq<char>,
    pub version: u64,
    pub content_type: Seq<char>,
    pub data_type: Seq<char>,
    pub streaming: bool,
    pub size: u64,
    pub created_at: Seq<char>,
    pub lifetime: Seq<char>,
    pub owner_type: Seq<char>,
    pub tags: Seq<(Seq<char>, Seq<char>)>,
}

pub open spec fn tag_views(tags: Seq<(String, String)>) -> Seq<(Seq<char>, Seq<char>)> {
    Seq::new(tags.len(), |i: int| (tags[i].0@, tags[i].1@))
}

impl View for DataArtifact {
    type V = ArtifactView;

    open spec fn view(&self) -> ArtifactView {
        ArtifactView {
            id: self.id@,
            name: self.name@,
            model_id: self.model_id@,
            model_name: self.model_name@,
            version: self.version,
            content_type: self.content_type@,
            data_type: self.data_type@,
            streaming: self.streaming,
            size: self.size,
            created_at: self.created_at@,
            lifetime: self.lifetime@,
            owner_type: self.owner_type@,
            tags: self.tags@,
        }
    }
}

pub open spec fn artifact_views(s: Seq<DataArtifact>) -> Seq<ArtifactView> {
    Seq::new(s.len(), |i: int| s[i]@)
}

/// The owner type of a content: its own, or else its owner definition's.
pub open spec fn effective_owner(c: DataContent) -> Seq<char> {
    if c.owner_type@.len() == 0 {
        match c.owner_definition {
            Some(o) => o.owner_type@,
            None => Seq::empty(),
        }
    } else {
        c.owner_type@
    }
}

/// The metadata of a content.
pub open spec fn content_artifact(c: DataContent) -> ArtifactView {
    ArtifactView {
        id: c.id@,
        name: c.name@,
        model_id: c.model_id@,
        model_name: c.model_name@,
        version: c.version,
        content_type: c.content_type@,
        data_type: c.data_type@,
        streaming: c.streaming,
        size: c.size,
        created_at: c.created_at@,
        lifetime: c.lifetime@,
        owner_type: effective_owner(c),
        tags: c.tags@,
    }
}

impl DataContent {
    /// The owner type: the content's own, or else its owner definition's.
    pub fn effective_owner_type(&self) -> (r: &str)
        ensures
            r@ == effective_owner(*self),
    {
        if self.owner_type.as_str().is_empty() {
            match &self.owner_definition {
                Some(owner) => owner.owner_type.as_str(),
                None => {
                    proof {
                        reveal_strlit("");
                    }
                    ""
                },
            }
        } else {
            self.owner_type.as_str()
        }
    }

    /// The content's metadata as an artifact.
    pub fn into_artifact(self) -> (r: DataArtifact)
        ensures
            r@ == content_artifact(self),
    {
        let owner_type = String::from_str(self.effective_owner_type());
        DataArtifact {
            id: self.id,
            name: self.name,
            model_id: self.model_id,
            model_name: self.model_name,
            version: self.version,
            content_type: self.content_type,
            data_type: self.data_type,
            streaming: self.streaming,
            size: self.size,
            created_at: self.created_at,
            lifetime: self.lifetime,
            owner_type,
            tags: self.tags,
        }
    }
}

} // verus!

verus! {

/// `x` placed into a list ordered newest first: after every artifact
/// created at the same time or later (times compared as text).
pub open spec fn insert_newest(s: Seq<ArtifactView>, x: ArtifactView) -> Seq<ArtifactView>
    decreases s.len(),
{
    if s.len() == 0 {
        seq![x]
    } else if key_lt(s[0].created_at, x.created_at) {
        seq![x] + s
    } else {
        seq![s[0]] + insert_newest(s.drop_first(), x)
    }
}

/// Artifacts ordered newest first by creation time, those created at the
/// same time kept in their listed order (a stable sort).
pub open spec fn newest_first(s: Seq<ArtifactView>) -> Seq<ArtifactView>
    decreases s.len(),
{
    if s.len() == 0 {
        Seq::empty()
    } else {
        insert_newest(newest_first(s.drop_last()), s.last())
    }
}

proof fn lemma_insert_newest_at(s: Seq<ArtifactView>, x: ArtifactView, j: int)
    requires
        0 <= j <= s.len(),
        forall|i: int| 0 <= i < j ==> !key_lt(#[trigger] s[i].created_at, x.created_at),
        j == s.len() || key_lt(s[j].created_at, x.created_at),
    ensures
        insert_newest(s, x) == s.insert(j, x),
    decreases j,
{
    if j == 0 {
        assert(s.insert(0, x) =~= seq![x] + s);
    } else {
        let rest = s.drop_first();
        assert forall|i: int| 0 <= i < j - 1 implies !key_lt(#[trigger] rest[i].created_at, x.created_at) by {
            assert(rest[i] == s[i + 1]);
        }
        lemma_insert_newest_at(rest, x, j - 1);
        assert(seq![s[0]] + rest.insert(j - 1, x) =~= s.insert(j, x));
    }
}

/// Artifacts in the order `newest_first` gives.
pub fn sort_newest_first(items: Vec<DataArtifact>) -> (r: Vec<DataArtifact>)
    ensures
        artifact_views(r@) == newest_first(artifact_views(items@)),
{
    let ghost orig = artifact_views(items@);
    let mut rest = items;
    let mut out: Vec<DataArtifact> = Vec::new();
    let mut k: usize = 0;
    proof {
        assert(artifact_views(rest@) =~= orig.skip(0));
        assert(artifact_views(out@) =~= newest_first(orig.take(0)));
    }
    let n0 = rest.len();
    proof {
        assert(orig.len() == n0);
    }
    while rest.len() > 0
        invariant
            k <= orig.len(),
            orig.len() <= usize::MAX,
            artifact_views(rest@) == orig.skip(k as int),
            artifact_views(out@) == newest_first(orig.take(k as int)),
        decreases rest.len(),
    {
        let ghost before_rest = rest@;
        let x = rest.remove(0);
        proof {
            let bv = artifact_views(before_rest);
            assert(bv == orig.skip(k as int));
            assert(artifact_views(rest@) =~= bv.drop_first());
            assert(bv.drop_first() =~= orig.skip(k as int + 1));
            assert(x@ == bv[0]);
        }
        let ghost sorted = artifact_views(out@);
        let mut j: usize = 0;
        while j < out.len() && !key_less(out[j].created_at.as_str(), x.created_at.as_str())
            invariant
                j <= out.len(),
                sorted == artifact_views(out@),
                forall|i: int| 0 <= i < j ==> !key_lt(#[trigger] sorted[i].created_at, x@.created_at),
            decreases out.len() - j,
        {
            j = j + 1;
        }
        proof {
            lemma_insert_newest_at(sorted, x@, j as int);
            assert(orig.take(k as int + 1).drop_last() =~= orig.take(k as int));
        }
        let ghost xv = x@;
        out.insert(j, x);
        proof {
            assert(artifact_views(out@) =~= sorted.insert(j as int, xv));
        }
        k = k + 1;
    }
    proof {
        assert(orig.take(k as int) =~= orig);
    }
    out
}

/// An artifact of a listing with the listing's model and the group's data
/// type filled in where it has none.
pub open spec fn filled(a: ArtifactView, model_id: Seq<char>, model_name: Seq<char>, data_type: Seq<char>) -> ArtifactView {
    ArtifactView {
        model_id: if a.model_id.len() == 0 {
            model_id
        } else {
            a.model_id
        },
        model_name: if a.model_name.len() == 0 {
            model_name
        } else {
            a.model_name
        },
        data_type: if a.data_type.len() == 0 {
            data_type
        } else {
            a.data_type
        },
        ..a
    }
}

/// The artifacts of the groups, in order, filled in.
pub open spec fn group_artifacts(groups: Seq<DataGroup>, model_id: Seq<char>, model_name: Seq<char>) -> Seq<
    ArtifactView,
>
    decreases groups.len(),
{
    if groups.len() == 0 {
        Seq::empty()
    } else {
        let g = groups.last();
        group_artifacts(groups.drop_last(), model_id, model_name) + Seq::new(
            g.items@.len(),
            |i: int| filled(g.items@[i]@, model_id, model_name, g.data_type@),
        )
    }
}

/// A model's artifacts from a data listing: every group's artifacts with
/// the model and data type filled in, newest first.
pub fn listed_artifacts(response: DataListResponse) -> (r: Vec<DataArtifact>)
    ensures
        artifact_views(r@) == newest_first(
            group_artifacts(response.groups@, response.model_id@, response.model_name@),
        ),
{
    let ghost groups = response.groups@;
    let ghost mid = response.model_id@;
    let ghost mname = response.model_name@;
    let model_id = response.model_id;
    let model_name = response.model_name;
    let mut pending = response.groups;
    let mut all: Vec<DataArtifact> = Vec::new();
    let mut g: usize = 0;
    proof {
        assert(pending@ =~= groups.skip(0));
        assert(artifact_views(all@) =~= group_artifacts(groups.take(0), mid, mname));
    }
    let n0 = pending.len();
    proof {
        assert(groups.len() == n0);
    }
    while pending.len() > 0
        invariant
            g <= groups.len(),
            groups.len() <= usize::MAX,
            pending@ == groups.skip(g as int),
            model_id@ == mid,
            model_name@ == mname,
            artifact_views(all@) == group_artifacts(groups.take(g as int), mid, mname),
        decreases pending.len(),
    {
        let ghost before = pending@;
        let group = pending.remove(0);
        proof {
            assert(pending@ =~= groups.skip(g as int + 1));
            assert(group == groups[g as int]) by {
                assert(before[0] == groups.skip(g as int)[0]);
            }
            assert(groups.take(g as int + 1).drop_last() =~= groups.take(g as int));
        }
        let ghost start = artifact_views(all@);
        let ghost item_seq = group.items@;
        let data_type = group.data_type;
        let mut items = group.items;
        let mut i: usize = 0;
        let n1 = items.len();
        proof {
            assert(item_seq.len() == n1);
        }
        while items.len() > 0
            invariant
                i <= item_seq.len(),
                item_seq.len() <= usize::MAX,
                items@ == item_seq.skip(i as int),
                model_id@ == mid,
                model_name@ == mname,
                artifact_views(all@) == start + Seq::new(
                    i as nat,
                    |t: int| filled(item_seq[t]@, mid, mname, data_type@),
                ),
            decreases items.len(),
        {
            let ghost before_items = items@;
            let mut a = items.remove(0);
            proof {
                assert(items@ =~= item_seq.skip(i as int + 1));
                assert(a == item_seq[i as int]) by {
                    assert(before_items[0] == item_seq.skip(i as int)[0]);
                }
            }
            if a.model_id.as_str().is_empty() {
                a.model_id = model_id.clone();
            }
            if a.model_name.as_str().is_empty() {
                a.model_name = model_name.clone();
            }
            if a.data_type.as_str().is_empty() {
                a.data_type = data_type.clone();
            }
            let ghost av = a@;
            let ghost prev = artifact_views(all@);
            all.push(a);
            proof {
                assert(av == filled(item_seq[i as int]@, mid, mname, data_type@));
                assert(artifact_views(all@) =~= prev.push(av));
                assert(artifact_views(all@) =~= start + Seq::new(
                    (i + 1) as nat,
                    |t: int| filled(item_seq[t]@, mid, mname, data_type@),
                ));
            }
            i = i + 1;
        }
        proof {
            assert(i == item_seq.len());
        }
        g = g + 1;
    }
    proof {
        assert(groups.take(g as int) =~= groups);
    }
    sort_newest_first(all)
}

/// The artifacts of a query reply (each content's metadata), newest first.
pub fn queried_artifacts(response: QueryResponse) -> (r: Vec<DataArtifact>)
    ensures
        artifact_views(r@) == newest_first(
            Seq::new(response.results@.len(), |i: int| content_artifact(response.results@[i])),
        ),
{
    let ghost results = response.results@;
    let mut pending = response.results;
    let mut all: Vec<DataArtifact> = Vec::new();
    let mut k: usize = 0;
    let n0 = pending.len();
    proof {
        assert(results.len() == n0);
    }
    while pending.len() > 0
        invariant
            k <= results.len(),
            results.len() <= usize::MAX,
            pending@ == results.skip(k as int),
            artifact_views(all@) == Seq::new(k as nat, |i: int| content_artifact(results[i])),
        decreases pending.len(),
    {
        let ghost before = pending@;
        let c = pending.remove(0);
        proof {
            assert(pending@ =~= results.skip(k as int + 1));
            assert(c == results[k as int]) by {
                assert(before[0] == results.skip(k as int)[0]);
            }
        }
        let a = c.into_artifact();
        let ghost prev = artifact_views(all@);
        let ghost av = a@;
        all.push(a);
        proof {
            assert(av == content_artifact(results[k as int]));
            assert(artifact_views(all@) =~= prev.push(av));
            assert(artifact_views(all@) =~= Seq::new((k + 1) as nat, |i: int| content_artifact(results[i])));
        }
        k = k + 1;
    }
    proof {
        assert(k == results.len());
    }
    sort_newest_first(all)
}

/// The first result of a historical query, or `VersionNotFound` when there
/// is none.
pub fn first_result(response: QueryResponse) -> (r: Result<DataContent, Error>)
    ensures
        response.results@.len() > 0 ==> r == Ok::<DataContent, Error>(response.results@[0]),
        response.results@.len() == 0 ==> r matches Err(Error::VersionNotFound),
{
    let mut results = response.results;
    if results.len() == 0 {
        Err(Error::VersionNotFound)
    } else {
        Ok(results.remove(0))
    }
}

} // verus!

verus! {

/// Model of a version entry.
pub struct VersionView {
    pub version: u64,
    pub created_at: Seq<char>,
    pub size: u64,
    pub checksum: Seq<char>,
    pub is_latest: bool,
}

impl View for DataVersion {
    type V = VersionView;

    open spec fn view(&self) -> VersionView {
        VersionView {
            version: self.version,
            created_at: self.created_at@,
            size: self.size,
            checksum: self.checksum@,
            is_latest: self.is_latest,
        }
    }
}

pub open spec fn version_views(s: Seq<DataVersion>) -> Seq<VersionView> {
    Seq::new(s.len(), |i: int| s[i]@)
}

/// `x` placed after every version numbered the same or higher.
pub open spec fn insert_version(s: Seq<VersionView>, x: VersionView) -> Seq<VersionView>
    decreases s.len(),
{
    if s.len() == 0 {
        seq![x]
    } else if s[0].version < x.version {
        seq![x] + s
    } else {
        seq![s[0]] + insert_version(s.drop_first(), x)
    }
}

/// Versions highest first, equal numbers kept in their listed order.
pub open spec fn highest_first(s: Seq<VersionView>) -> Seq<VersionView>
    decreases s.len(),
{
    if s.len() == 0 {
        Seq::empty()
    } else {
        insert_version(highest_first(s.drop_last()), s.last())
    }
}

proof fn lemma_insert_version_at(s: Seq<VersionView>, x: VersionView, j: int)
    requires
        0 <= j <= s.len(),
        forall|i: int| 0 <= i < j ==> (#[trigger] s[i]).version >= x.version,
        j == s.len() || s[j].version < x.version,
    ensures
        insert_version(s, x) == s.insert(j, x),
    decreases j,
{
    if j == 0 {
        assert(s.insert(0, x) =~= seq![x] + s);
    } else {
        let rest = s.drop_first();
        assert forall|i: int| 0 <= i < j - 1 implies (#[trigger] rest[i]).version >= x.version by {
            assert(rest[i] == s[i + 1]);
        }
        lemma_insert_version_at(rest, x, j - 1);
        assert(seq![s[0]] + rest.insert(j - 1, x) =~= s.insert(j, x));
    }
}

/// The versions of a reply, highest first.
pub fn versions_highest_first(response: VersionsResponse) -> (r: Vec<DataVersion>)
    ensures
        version_views(r@) == highest_first(version_views(response.versions@)),
{
    let ghost orig = version_views(response.versions@);
    let mut rest = response.versions;
    let mut out: Vec<DataVersion> = Vec::new();
    let mut k: usize = 0;
    let n0 = rest.len();
    proof {
        assert(orig.len() == n0);
        assert(version_views(rest@) =~= orig.skip(0));
        assert(version_views(out@) =~= highest_first(orig.take(0)));
    }
    while rest.len() > 0
        invariant
            k <= orig.len(),
            orig.len() <= usize::MAX,
            version_views(rest@) == orig.skip(k as int),
            version_views(out@) == highest_first(orig.take(k as int)),
        decreases rest.len(),
    {
        let ghost before_rest = rest@;
        let x = rest.remove(0);
        proof {
            let bv = version_views(before_rest);
            assert(bv == orig.skip(k as int));
            assert(version_views(rest@) =~= bv.drop_first());
            assert(bv.drop_first() =~= orig.skip(k as int + 1));
            assert(x@ == bv[0]);
        }
        let ghost sorted = version_views(out@);
        let mut j: usize = 0;
        while j < out.len() && out[j].version >= x.version
            invariant
                j <= out.len(),
                sorted == version_views(out@),
                forall|i: int| 0 <= i < j ==> (#[trigger] sorted[i]).version >= x@.version,
            decreases out.len() - j,
        {
            j = j + 1;
        }
        proof {
            lemma_insert_version_at(sorted, x@, j as int);
            assert(orig.take(k as int + 1).drop_last() =~= orig.take(k as int));
        }
        let ghost xv = x@;
        out.insert(j, x);
        proof {
            assert(version_views(out@) =~= sorted.insert(j as int, xv));
        }
        k = k + 1;
    }
    proof {
        assert(orig.take(k as int) =~= orig);
    }
    out
}

/// What holds of every artifact listed and of `x` holds of every artifact
/// after inserting `x`.
proof fn lemma_insert_newest_all(s: Seq<ArtifactView>, x: ArtifactView, p: spec_fn(ArtifactView) -> bool)
    requires
        forall|i: int| 0 <= i < s.len() ==> p(#[trigger] s[i]),
        p(x),
    ensures
        forall|i: int| 0 <= i < insert_newest(s, x).len() ==> p(#[trigger] insert_newest(s, x)[i]),
    decreases s.len(),
{
    if s.len() > 0 && !key_lt(s[0].created_at, x.created_at) {
        let rest = s.drop_first();
        assert forall|i: int| 0 <= i < rest.len() implies p(#[trigger] rest[i]) by {
            assert(rest[i] == s[i + 1]);
        }
        lemma_insert_newest_all(rest, x, p);
        let r = insert_newest(s, x);
        assert forall|i: int| 0 <= i < r.len() implies p(#[trigger] r[i]) by {
            if i > 0 {
                assert(r[i] == insert_newest(rest, x)[i - 1]);
            }
        }
    } else if s.len() > 0 {
        let r = insert_newest(s, x);
        assert forall|i: int| 0 <= i < r.len() implies p(#[trigger] r[i]) by {
            if i > 0 {
                assert(r[i] == s[i - 1]);
            }
        }
    }
}

/// Ordered newest first: no artifact was created before one that follows it.
pub open spec fn is_newest_first(s: Seq<ArtifactView>) -> bool {
    forall|i: int, j: int| 0 <= i < j < s.len() ==> !key_lt(#[trigger] s[i].created_at, #[trigger] s[j].created_at)
}

proof fn lemma_insert_newest_sorted(s: Seq<ArtifactView>, x: ArtifactView)
    requires
        is_newest_first(s),
    ensures
        is_newest_first(insert_newest(s, x)),
    decreases s.len(),
{
    let r = insert_newest(s, x);
    if s.len() == 0 {
    } else if key_lt(s[0].created_at, x.created_at) {
        assert forall|i: int, j: int| 0 <= i < j < r.len() implies !key_lt(
            #[trigger] r[i].created_at,
            #[trigger] r[j].created_at,
        ) by {
            if i == 0 {
                assert(r[j] == s[j - 1]);
                if j - 1 > 0 {
                    assert(!key_lt(s[0].created_at, s[j - 1].created_at));
                }
                if key_lt(x.created_at, s[j - 1].created_at) {
                    lemma_key_lt_transitive(s[0].created_at, x.created_at, s[j - 1].created_at);
                    if j - 1 == 0 {
                        lemma_key_lt_irreflexive(s[0].created_at);
                    }
                }
            } else {
                assert(r[i] == s[i - 1] && r[j] == s[j - 1]);
            }
        }
    } else {
        let rest = s.drop_first();
        assert(is_newest_first(rest)) by {
            assert forall|i: int, j: int| 0 <= i < j < rest.len() implies !key_lt(
                #[trigger] rest[i].created_at,
                #[trigger] rest[j].created_at,
            ) by {
                assert(rest[i] == s[i + 1] && rest[j] == s[j + 1]);
            }
        }
        lemma_insert_newest_sorted(rest, x);
        let s0 = s[0];
        let p = |e: ArtifactView| !key_lt(s0.created_at, e.created_at);
        assert forall|i: int| 0 <= i < rest.len() implies p(#[trigger] rest[i]) by {
            assert(rest[i] == s[i + 1]);
        }
        lemma_insert_newest_all(rest, x, p);
        let t = insert_newest(rest, x);
        assert forall|i: int, j: int| 0 <= i < j < r.len() implies !key_lt(
            #[trigger] r[i].created_at,
            #[trigger] r[j].created_at,
        ) by {
            assert(r[j] == t[j - 1]);
            if i > 0 {
                assert(r[i] == t[i - 1]);
            } else {
                assert(p(t[j - 1]));
            }
        }
    }
}

proof fn lemma_insert_newest_multiset(s: Seq<ArtifactView>, x: ArtifactView)
    ensures
        insert_newest(s, x).to_multiset() =~= s.to_multiset().insert(x),
    decreases s.len(),
{
    broadcast use vstd::seq_lib::to_multiset_insert;

    if s.len() == 0 {
        assert(insert_newest(s, x) =~= s.insert(0, x));
    } else if key_lt(s[0].created_at, x.created_at) {
        assert(insert_newest(s, x) =~= s.insert(0, x));
    } else {
        let rest = s.drop_first();
        lemma_insert_newest_multiset(rest, x);
        let t = insert_newest(rest, x);
        assert(insert_newest(s, x) =~= t.insert(0, s[0]));
        assert(s =~= rest.insert(0, s[0]));
    }
}

/// Ordering artifacts newest first keeps every artifact, and no artifact
/// comes after one created later.
pub proof fn lemma_newest_first(s: Seq<ArtifactView>)
    ensures
        is_newest_first(newest_first(s)),
        newest_first(s).to_multiset() =~= s.to_multiset(),
    decreases s.len(),
{
    broadcast use vstd::seq_lib::to_multiset_build;

    if s.len() > 0 {
        lemma_newest_first(s.drop_last());
        lemma_insert_newest_sorted(newest_first(s.drop_last()), s.last());
        lemma_insert_newest_multiset(newest_first(s.drop_last()), s.last());
        assert(s =~= s.drop_last().push(s.last()));
        assert(s.drop_last().push(s.last()).to_multiset() =~= s.drop_last().to_multiset().insert(s.last()));
    } else {
        assert(s =~= Seq::<ArtifactView>::empty());
        assert(newest_first(s) =~= s);
    }
}

} // verus!

verus! {

fn copy_tags(v: &Vec<(String, String)>) -> (r: Vec<(String, String)>)
    ensures
        tag_views(r@) == tag_views(v@),
{
    let mut out: Vec<(String, String)> = Vec::new();
    let mut i: usize = 0;
    while i < v.len()
        invariant
            i <= v.len(),
            tag_views(out@) == tag_views(v@).take(i as int),
        decreases v.len() - i,
    {
        let ghost before = out@;
        let a = v[i].0.clone();
        let b = v[i].1.clone();
        out.push((a, b));
        proof {
            assert(tag_views(out@) =~= tag_views(before).push((a@, b@)));
            assert(tag_views(out@) =~= tag_views(v@).take(i as int + 1));
        }
        i = i + 1;
    }
    proof {
        assert(tag_views(v@).take(i as int) =~= tag_views(v@));
    }
    out
}

impl DataArtifact {
    pub fn copy(&self) -> (r: Self)
        ensures
            r@ == self@,
    {
        DataArtifact {
            id: self.id.clone(),
            name: self.name.clone(),
            model_id: self.model_id.clone(),
            model_name: self.model_name.clone(),
            version: self.version,
            content_type: self.content_type.clone(),
            data_type: self.data_type.clone(),
            streaming: self.streaming,
            size: self.size,
            created_at: self.created_at.clone(),
            lifetime: self.lifetime.clone(),
            owner_type: self.owner_type.clone(),
            tags: self.tags.copy(),
        }
    }
}

/// A copy of a list of artifacts.
pub fn copy_artifacts(v: &Vec<DataArtifact>) -> (r: Vec<DataArtifact>)
    ensures
        artifact_views(r@) == artifact_views(v@),
{
    let mut out: Vec<DataArtifact> = Vec::new();
    let mut i: usize = 0;
    while i < v.len()
        invariant
            i <= v.len(),
            artifact_views(out@) == artifact_views(v@).take(i as int),
        decreases v.len() - i,
    {
        let a = v[i].copy();
        let ghost before = out@;
        out.push(a);
        proof {
            assert(artifact_views(out@) =~= artifact_views(before).push(a@));
            assert(artifact_views(out@) =~= artifact_views(v@).take(i as int + 1));
        }
        i = i + 1;
    }
    proof {
        assert(artifact_views(v@).take(i as int) =~= artifact_views(v@));
    }
    out
}

impl DataVersion {
    pub fn copy(&self) -> (r: Self)
        ensures
            r@ == self@,
    {
        DataVersion {
            version: self.version,
            created_at: self.created_at.clone(),
            size: self.size,
            checksum: self.checksum.clone(),
            is_latest: self.is_latest,
        }
    }
}

} // verus!

verus! {

pub struct ContentView {
    pub meta: ArtifactView,
    pub owner_type: Seq<char>,
    pub owner_definition: Option<(Seq<char>, Seq<char>)>,
    pub content: Json,
}

impl View for DataContent {
    type V = ContentView;

    open spec fn view(&self) -> ContentView {
        ContentView {
            meta: ArtifactView {
                id: self.id@,
                name: self.name@,
                model_id: self.model_id@,
                model_name: self.model_name@,
                version: self.version,
                content_type: self.content_type@,
                data_type: self.data_type@,
                streaming: self.streaming,
                size: self.size,
                created_at: self.created_at@,
                lifetime: self.lifetime@,
                owner_type: self.owner_type@,
                tags: self.tags@,
            },
            owner_type: self.owner_type@,
            owner_definition: match self.owner_definition {
                Some(o) => Some((o.owner_type@, o.owner_ref@)),
                None => None,
            },
            content: self.content@,
        }
    }
}

} // verus!
