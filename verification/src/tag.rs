use crate::identifier::{split_identifier, Identifier};
use crate::nbt::{json_seq_view, lemma_json_view_unfold, members_view, JsonValue, JsonView};
use vstd::prelude::*;
use vstd::string::{StrSliceExecFns, StringExecFns};

verus! {

/// An identifier as its two parts.
pub type IdView = (Seq<char>, Seq<char>);

/// One value of a tag file: an identifier, or a reference (written with a
/// leading `#`) to another tag whose values it stands for.
#[derive(Debug, Clone)]
pub enum MaybeIdentifier {
    Identifier(Identifier),
    Reference(String),
}

pub enum MaybeIdView {
    Identifier(IdView),
    Reference(Seq<char>),
}

impl View for MaybeIdentifier {
    type V = MaybeIdView;

    open spec fn view(&self) -> MaybeIdView {
        match self {
            MaybeIdentifier::Identifier(id) => MaybeIdView::Identifier(id@),
            MaybeIdentifier::Reference(r) => MaybeIdView::Reference(r@),
        }
    }
}

/// A name as an identifier: split at its first colon when it has one, in
/// the `minecraft` namespace otherwise.
pub open spec fn resolve_name(v: Seq<char>) -> IdView {
    if v.contains(':') {
        split_identifier(v)
    } else {
        ("minecraft"@, v)
    }
}

/// A tag file value: a leading `#` makes the rest a reference; anything
/// else is an identifier.
pub open spec fn tag_value_spec(v: Seq<char>) -> MaybeIdView {
    if v.len() > 0 && v[0] == '#' {
        MaybeIdView::Reference(v.skip(1))
    } else {
        MaybeIdView::Identifier(resolve_name(v))
    }
}

fn contains_colon(v: &str) -> (r: bool)
    ensures
        r == v@.contains(':'),
{
    let len = v.unicode_len();
    let mut i: usize = 0;
    while i < len
        invariant
            len == v@.len(),
            i <= len,
            forall|j: int| 0 <= j < i ==> v@[j] != ':',
        decreases len - i,
    {
        if v.get_char(i) == ':' {
            return true;
        }
        i = i + 1;
    }
    false
}

/// A name as an identifier (see `resolve_name`).
pub fn resolve(v: &str) -> (r: Identifier)
    ensures
        r@ == resolve_name(v@),
{
    if contains_colon(v) {
        Identifier::from_text(v)
    } else {
        Identifier::with_namespace("minecraft", v)
    }
}

/// Reads one value of a tag file.
pub fn parse_tag_value(v: &str) -> (r: MaybeIdentifier)
    ensures
        r@ == tag_value_spec(v@),
{
    let len = v.unicode_len();
    if len > 0 && v.get_char(0) == '#' {
        let rest = v.substring_char(1, len);
        assert(rest@ =~= v@.skip(1));
        MaybeIdentifier::Reference(rest.to_owned())
    } else {
        MaybeIdentifier::Identifier(resolve(v))
    }
}

/// `s` with every trailing `.json` removed.
pub open spec fn trim_json(s: Seq<char>) -> Seq<char>
    decreases s.len(),
{
    if s.len() >= 5 && s.skip(s.len() - 5) == ".json"@ {
        trim_json(s.take(s.len() - 5))
    } else {
        s
    }
}

/// The parts joined with `/` between them.
pub open spec fn join_slash(parts: Seq<Seq<char>>) -> Seq<char>
    decreases parts.len(),
{
    if parts.len() == 0 {
        Seq::empty()
    } else if parts.len() == 1 {
        parts[0]
    } else {
        join_slash(parts.drop_last()) + seq!['/'] + parts.last()
    }
}

/// The tag a file defines, from the components of its path below the tags
/// directory: the first component names the registry and is left out, the
/// directories after it and the file name without `.json` make the path.
pub open spec fn tag_path_spec(comps: Seq<Seq<char>>) -> Seq<char> {
    join_slash(comps.subrange(1, comps.len() - 1).push(trim_json(comps.last())))
}

proof fn lemma_join_slash_front(d: Seq<char>, p: Seq<Seq<char>>)
    requires
        p.len() >= 1,
    ensures
        join_slash(seq![d] + p) == d + seq!['/'] + join_slash(p),
    decreases p.len(),
{
    let q = seq![d] + p;
    if p.len() == 1 {
        assert(q.drop_last() =~= seq![d]);
        assert(q.last() == p[0]);
        assert(join_slash(seq![d]) == d);
        assert(join_slash(p) == p[0]);
        assert(join_slash(q) =~= d + seq!['/'] + join_slash(p));
    } else {
        assert(q.drop_last() =~= seq![d] + p.drop_last());
        lemma_join_slash_front(d, p.drop_last());
        assert(q.last() == p.last());
        assert(join_slash(q) =~= d + seq!['/'] + join_slash(p));
    }
}

/// Law: a file directly inside the registry's directory defines the tag
/// named by its file name without `.json`.
pub proof fn lemma_tag_path_of_file(registry: Seq<char>, file: Seq<char>)
    ensures
        tag_path_spec(seq![registry, file]) == trim_json(file),
{
    assert(seq![registry, file].subrange(1, 1).push(trim_json(file)) =~= seq![trim_json(file)]);
}

/// Law: every directory between the registry's directory and the file is
/// part of the tag's name: one more directory right below the registry's
/// puts its name and a `/` in front.
pub proof fn lemma_tag_path_directory(comps: Seq<Seq<char>>, dir: Seq<char>)
    requires
        comps.len() >= 2,
    ensures
        tag_path_spec(comps.insert(1, dir)) == dir + seq!['/'] + tag_path_spec(comps),
{
    let c2 = comps.insert(1, dir);
    let p = comps.subrange(1, comps.len() - 1).push(trim_json(comps.last()));
    assert(c2.last() == comps.last());
    assert(c2.subrange(1, c2.len() - 1).push(trim_json(c2.last())) =~= seq![dir] + p);
    lemma_join_slash_front(dir, p);
}

/// Law: the `.json` extension is not part of a tag's name.
pub proof fn lemma_trim_json_extension(stem: Seq<char>)
    ensures
        trim_json(stem + ".json"@) == trim_json(stem),
{
    reveal_strlit(".json");
    let s = stem + ".json"@;
    assert(s.skip(s.len() - 5) =~= ".json"@);
    assert(s.take(s.len() - 5) =~= stem);
}

fn ends_with_json(s: &str) -> (r: bool)
    ensures
        r == (s@.len() >= 5 && s@.skip(s@.len() - 5) == ".json"@),
{
    proof {
        reveal_strlit(".json");
    }
    let len = s.unicode_len();
    if len < 5 {
        return false;
    }
    let r = s.get_char(len - 5) == '.' && s.get_char(len - 4) == 'j' && s.get_char(len - 3) == 's'
        && s.get_char(len - 2) == 'o' && s.get_char(len - 1) == 'n';
    proof {
        let t = s@.skip(s@.len() - 5);
        if r {
            assert(t =~= ".json"@);
        } else {
            if t == ".json"@ {
                assert(t[0] == '.' && t[1] == 'j' && t[2] == 's' && t[3] == 'o' && t[4] == 'n');
            }
        }
    }
    r
}

/// The file name with every trailing `.json` removed.
pub fn trim_json_suffix(s: &str) -> (r: String)
    ensures
        r@ == trim_json(s@),
{
    let mut cur: String = s.to_owned();
    while ends_with_json(cur.as_str())
        invariant
            trim_json(cur@) == trim_json(s@),
        decreases cur@.len(),
    {
        let len = cur.as_str().unicode_len();
        let shorter = cur.as_str().substring_char(0, len - 5);
        cur = shorter.to_owned();
    }
    cur
}

/// The tag a file defines, from the components of its path below the tags
/// directory; no tag for an empty path.
pub fn tag_path(comps: &Vec<String>) -> (r: Option<String>)
    requires
        comps@.len() != 1,
    ensures
        comps@.len() == 0 ==> r is None,
        comps@.len() >= 2 ==> (r matches Some(p) && p@ == tag_path_spec(
            comps@.map_values(|c: String| c@),
        )),
{
    if comps.len() == 0 {
        return None;
    }
    let ghost cv = comps@.map_values(|c: String| c@);
    let stem = trim_json_suffix(comps[comps.len() - 1].as_str());
    let ghost parts = cv.subrange(1, cv.len() - 1).push(stem@);
    let mut out: String = String::new();
    let mut i: usize = 1;
    proof {
        reveal_strlit("/");
    }
    while i < comps.len() - 1
        invariant
            comps@.len() >= 2,
            cv == comps@.map_values(|c: String| c@),
            1 <= i <= comps@.len() - 1,
            parts == cv.subrange(1, cv.len() - 1).push(stem@),
            out@ == join_slash(parts.take(i - 1)),
        decreases comps@.len() - i,
    {
        proof {
            reveal_strlit("/");
        }
        if i > 1 {
            out = out.concat("/");
        }
        out = out.concat(comps[i].as_str());
        proof {
            assert(parts.take(i as int).drop_last() =~= parts.take(i - 1));
            assert(parts[i - 1] == comps@[i as int]@);
            let t = parts.take(i as int);
            assert(t.last() == parts[i - 1]);
            if i == 1 {
                assert(out@ =~= join_slash(t));
            } else {
                assert(join_slash(t) == join_slash(t.drop_last()) + seq!['/'] + t.last());
                assert(out@ =~= join_slash(t));
            }
        }
        i = i + 1;
    }
    if comps.len() > 2 {
        out = out.concat("/");
    }
    out = out.concat(stem.as_str());
    proof {
        assert(parts.take(parts.len() as int) =~= parts);
        assert(parts.take(parts.len() as int).drop_last() =~= parts.take(parts.len() - 1));
        assert(out@ =~= join_slash(parts));
    }
    Some(out)
}


/// The identifiers of a sequence, each by its view.
pub open spec fn ids_view(v: Seq<Identifier>) -> Seq<IdView> {
    v.map_values(|x: Identifier| x@)
}

/// Tags as read from their files: each tag with its values, in the order
/// in which the tags are walked.
pub type RawTags = Seq<(IdView, Seq<MaybeIdView>)>;

/// Tags with their values expanded.
pub type TagCache = Seq<(IdView, Seq<IdView>)>;

pub open spec fn raw_view(raw: Seq<(Identifier, Vec<MaybeIdentifier>)>) -> RawTags {
    Seq::new(raw.len(), |i: int| (raw[i].0@, raw[i].1@.map_values(|m: MaybeIdentifier| m@)))
}

pub open spec fn cache_view(cache: Seq<(Identifier, Vec<Identifier>)>) -> TagCache {
    Seq::new(cache.len(), |i: int| (cache[i].0@, ids_view(cache[i].1@)))
}

/// The keys of an association list.
pub open spec fn keys_of<V>(s: Seq<(IdView, V)>) -> Seq<IdView> {
    Seq::new(s.len(), |i: int| s[i].0)
}

/// The position of the first occurrence of `id` among the first `n` keys.
pub open spec fn key_index(keys: Seq<IdView>, id: IdView, n: nat) -> Option<int>
    decreases n,
{
    if n == 0 {
        None
    } else {
        match key_index(keys, id, (n - 1) as nat) {
            Some(k) => Some(k),
            None => if keys[n - 1] == id {
                Some(n - 1)
            } else {
                None
            },
        }
    }
}

/// The position of the entry for `id` in an association list.
pub open spec fn find_key<V>(s: Seq<(IdView, V)>, id: IdView) -> Option<int> {
    key_index(keys_of(s), id, s.len())
}

pub proof fn lemma_key_index(keys: Seq<IdView>, id: IdView, n: nat)
    requires
        n <= keys.len(),
    ensures
        key_index(keys, id, n) matches Some(k) ==> 0 <= k < n && keys[k] == id,
        key_index(keys, id, n) is None <==> forall|j: int| 0 <= j < n ==> keys[j] != id,
    decreases n,
{
    if n > 0 {
        lemma_key_index(keys, id, (n - 1) as nat);
    }
}

/// Storing `v` for `id`: the entry for `id` is replaced where there is one,
/// else the pair is added at the end.
pub open spec fn cache_insert<V>(s: Seq<(IdView, V)>, id: IdView, v: V) -> Seq<(IdView, V)> {
    match find_key(s, id) {
        Some(k) => s.update(k, (id, v)),
        None => s.push((id, v)),
    }
}

/// The sequence with every repeated element after its first occurrence
/// left out.
pub open spec fn dedup(s: Seq<IdView>) -> Seq<IdView>
    decreases s.len(),
{
    if s.len() == 0 {
        Seq::empty()
    } else {
        let d = dedup(s.drop_last());
        if d.contains(s.last()) {
            d
        } else {
            d.push(s.last())
        }
    }
}

/// How many of the first `n` tags are not on the stack.
pub open spec fn count_unstacked(raw: RawTags, stack: Seq<IdView>, n: nat) -> nat
    decreases n,
{
    if n == 0 {
        0
    } else {
        count_unstacked(raw, stack, (n - 1) as nat) + if stack.contains(raw[n - 1].0) {
            0nat
        } else {
            1nat
        }
    }
}

pub open spec fn unstacked(raw: RawTags, stack: Seq<IdView>) -> nat {
    count_unstacked(raw, stack, raw.len())
}

pub proof fn lemma_key_index_stable(keys: Seq<IdView>, id: IdView, n: nat, m: nat)
    requires
        n <= m,
        key_index(keys, id, n) is Some,
    ensures
        key_index(keys, id, m) == key_index(keys, id, n),
    decreases m,
{
    if m > n {
        lemma_key_index_stable(keys, id, n, (m - 1) as nat);
    }
}

pub proof fn lemma_push_unstacked(raw: RawTags, stack: Seq<IdView>, id: IdView, n: nat, k: int)
    requires
        n <= raw.len(),
    ensures
        count_unstacked(raw, stack.push(id), n) <= count_unstacked(raw, stack, n),
        0 <= k < n && raw[k].0 == id && !stack.contains(id) ==> count_unstacked(
            raw,
            stack.push(id),
            n,
        ) < count_unstacked(raw, stack, n),
    decreases n,
{
    if n > 0 {
        lemma_push_unstacked(raw, stack, id, (n - 1) as nat, k);
        let x = raw[n - 1].0;
        if stack.contains(x) {
            let j = choose|j: int| 0 <= j < stack.len() && stack[j] == x;
            assert(stack.push(id)[j] == x);
        }
        if x == id {
            assert(stack.push(id)[stack.len() as int] == x);
        }
    }
}

/// The values of a tag, expanded: each identifier stands for itself, each
/// reference for the expansion of the tag it names. Expanded tags are kept
/// in `cache` and taken from there when met again; a tag already being
/// expanded (on `stack`) expands to nothing; a tag that no file defines
/// expands to nothing. The result lists each identifier once, where it
/// first occurs.
pub open spec fn expand_id_spec(raw: RawTags, id: IdView, cache: TagCache, stack: Seq<IdView>) -> (
    Seq<IdView>,
    TagCache,
)
    decreases unstacked(raw, stack), 0nat, 0nat,
{
    match find_key(cache, id) {
        Some(k) => (cache[k].1, cache),
        None => if stack.contains(id) {
            (Seq::empty(), cache)
        } else {
            match find_key(raw, id) {
                None => (Seq::empty(), cache_insert(cache, id, Seq::empty())),
                Some(k) => {
                    proof {
                        lemma_key_index(keys_of(raw), id, raw.len());
                        lemma_push_unstacked(raw, stack, id, raw.len(), k);
                    }
                    let values = raw[k].1;
                    let (out, c2) = expand_values_spec(
                        raw,
                        values,
                        values.len(),
                        cache,
                        stack.push(id),
                    );
                    let u = dedup(out);
                    (u, cache_insert(c2, id, u))
                },
            }
        },
    }
}

/// The first `n` values, each expanded in turn, the cache carried along.
pub open spec fn expand_values_spec(
    raw: RawTags,
    values: Seq<MaybeIdView>,
    n: nat,
    cache: TagCache,
    stack: Seq<IdView>,
) -> (Seq<IdView>, TagCache)
    decreases unstacked(raw, stack), 1nat, n,
{
    if n == 0 {
        (Seq::empty(), cache)
    } else {
        let (prev, c1) = expand_values_spec(raw, values, (n - 1) as nat, cache, stack);
        match values[n - 1] {
            MaybeIdView::Identifier(x) => (prev.push(x), c1),
            MaybeIdView::Reference(r) => {
                let (e, c2) = expand_id_spec(raw, resolve_name(r), c1, stack);
                (prev + e, c2)
            },
        }
    }
}

/// Every tag of the first `n`, expanded in walking order, each with a
/// fresh stack and the cache carried along.
pub open spec fn expand_all_spec(raw: RawTags, n: nat) -> TagCache
    decreases n,
{
    if n == 0 {
        Seq::empty()
    } else {
        let c = expand_all_spec(raw, (n - 1) as nat);
        let id = raw[n - 1].0;
        let (e, c2) = expand_id_spec(raw, id, c, Seq::empty());
        cache_insert(c2, id, e)
    }
}

fn find_id<V>(s: &Vec<(Identifier, V)>, id: &Identifier) -> (r: Option<usize>)
    ensures
        r matches Some(k) ==> key_index(
            Seq::new(s@.len(), |i: int| s@[i].0@),
            id@,
            s@.len(),
        ) == Some(k as int),
        r is None ==> key_index(Seq::new(s@.len(), |i: int| s@[i].0@), id@, s@.len()) is None,
{
    let ghost keys = Seq::new(s@.len(), |i: int| s@[i].0@);
    let mut i: usize = 0;
    while i < s.len()
        invariant
            i <= s@.len(),
            keys == Seq::new(s@.len(), |i: int| s@[i].0@),
            key_index(keys, id@, i as nat) is None,
        decreases s@.len() - i,
    {
        if s[i].0 == *id {
            proof {
                assert(key_index(keys, id@, (i + 1) as nat) == Some(i as int));
                lemma_key_index_stable(keys, id@, (i + 1) as nat, s@.len());
            }
            return Some(i);
        }
        i = i + 1;
    }
    None
}

fn clone_ids(v: &Vec<Identifier>) -> (r: Vec<Identifier>)
    ensures
        ids_view(r@) == ids_view(v@),
{
    let mut out: Vec<Identifier> = Vec::new();
    let mut i: usize = 0;
    while i < v.len()
        invariant
            i <= v@.len(),
            ids_view(out@) == ids_view(v@.take(i as int)),
        decreases v@.len() - i,
    {
        let ghost before = out@;
        out.push(v[i].clone());
        proof {
            assert(out@ == before.push(v@[i as int]));
            assert(ids_view(before).len() == before.len());
            assert(before.len() == i);
            assert(v@.take(i + 1) =~= v@.take(i as int).push(v@[i as int]));
            assert forall|j: int| 0 <= j <= i implies ids_view(out@)[j] == ids_view(
                v@.take(i + 1),
            )[j] by {
                assert(ids_view(out@)[j] == out@[j]@);
                assert(ids_view(v@.take(i + 1))[j] == v@.take(i + 1)[j]@);
                if j < i {
                    assert(out@[j] == before[j]);
                    assert(ids_view(before)[j] == before[j]@);
                    assert(ids_view(v@.take(i as int))[j] == v@.take(i as int)[j]@);
                    assert(ids_view(before)[j] == ids_view(v@.take(i as int))[j]);
                }
            }
            assert(ids_view(out@) =~= ids_view(v@.take(i + 1)));
        }
        i = i + 1;
    }
    proof {
        assert(v@.take(v@.len() as int) =~= v@);
    }
    out
}

fn contains_id(v: &Vec<Identifier>, id: &Identifier) -> (r: bool)
    ensures
        r == ids_view(v@).contains(id@),
{
    let mut i: usize = 0;
    while i < v.len()
        invariant
            i <= v@.len(),
            forall|j: int| 0 <= j < i ==> v@[j]@ != id@,
        decreases v@.len() - i,
    {
        if v[i] == *id {
            proof {
                assert(ids_view(v@)[i as int] == id@);
            }
            return true;
        }
        i = i + 1;
    }
    proof {
        if ids_view(v@).contains(id@) {
            let j = choose|j: int| 0 <= j < ids_view(v@).len() && ids_view(v@)[j] == id@;
            assert(v@[j]@ == id@);
        }
    }
    false
}

fn dedup_ids(v: &Vec<Identifier>) -> (r: Vec<Identifier>)
    ensures
        ids_view(r@) == dedup(ids_view(v@)),
{
    let mut out: Vec<Identifier> = Vec::new();
    let mut i: usize = 0;
    while i < v.len()
        invariant
            i <= v@.len(),
            ids_view(out@) == dedup(ids_view(v@).take(i as int)),
        decreases v@.len() - i,
    {
        let ghost t = ids_view(v@).take(i + 1);
        proof {
            assert(t.drop_last() =~= ids_view(v@).take(i as int));
            assert(t.last() == v@[i as int]@);
        }
        if !contains_id(&out, &v[i]) {
            out.push(v[i].clone());
            proof {
                assert(ids_view(out@) =~= dedup(t));
            }
        }
        i = i + 1;
    }
    proof {
        assert(ids_view(v@).take(v@.len() as int) =~= ids_view(v@));
    }
    out
}

fn cache_store(cache: &mut Vec<(Identifier, Vec<Identifier>)>, id: Identifier, v: Vec<Identifier>)
    ensures
        cache_view(final(cache)@) == cache_insert(cache_view(old(cache)@), id@, ids_view(v@)),
{
    let found = find_id(cache, &id);
    proof {
        assert(keys_of(cache_view(cache@)) =~= Seq::new(cache@.len(), |i: int| cache@[i].0@));
    }
    let ghost id_v = id@;
    let ghost v_v = ids_view(v@);
    match found {
        Some(k) => {
            proof {
                lemma_key_index(keys_of(cache_view(cache@)), id@, cache@.len() as nat);
            }
            let ghost before = cache_view(cache@);
            cache.set(k, (id, v));
            proof {
                assert(cache_view(cache@) =~= before.update(k as int, (id_v, v_v)));
            }
        },
        None => {
            let ghost before = cache_view(cache@);
            cache.push((id, v));
            proof {
                assert(cache_view(cache@) =~= before.push((id_v, v_v)));
            }
        },
    }
}


fn expand_id(
    id: &Identifier,
    raw: &Vec<(Identifier, Vec<MaybeIdentifier>)>,
    cache: &mut Vec<(Identifier, Vec<Identifier>)>,
    stack: &mut Vec<Identifier>,
) -> (r: Vec<Identifier>)
    ensures
        (ids_view(r@), cache_view(final(cache)@)) == expand_id_spec(
            raw_view(raw@),
            id@,
            cache_view(old(cache)@),
            ids_view(old(stack)@),
        ),
        final(stack)@ == old(stack)@,
    decreases unstacked(raw_view(raw@), ids_view(old(stack)@)),
{
    let ghost rv = raw_view(raw@);
    let ghost c0 = cache_view(cache@);
    let ghost s0 = ids_view(stack@);
    let cached = find_id(cache, id);
    proof {
        assert(keys_of(c0) =~= Seq::new(cache@.len(), |i: int| cache@[i].0@));
        assert(keys_of(rv) =~= Seq::new(raw@.len(), |i: int| raw@[i].0@));
        lemma_key_index(keys_of(c0), id@, c0.len());
        lemma_key_index(keys_of(rv), id@, rv.len());
    }
    if let Some(k) = cached {
        return clone_ids(&cache[k].1);
    }
    if contains_id(stack, id) {
        return Vec::new();
    }
    let found = find_id(raw, id);
    match found {
        None => {
            let empty: Vec<Identifier> = Vec::new();
            cache_store(cache, id.clone(), Vec::new());
            proof {
                assert(ids_view(empty@) =~= Seq::<IdView>::empty());
            }
            empty
        },
        Some(k) => {
            let ghost s1 = s0.push(id@);
            stack.push(id.clone());
            proof {
                lemma_push_unstacked(rv, s0, id@, rv.len(), k as int);
                assert(ids_view(stack@) =~= s1);
            }
            let values = &raw[k].1;
            let ghost vv = rv[k as int].1;
            let mut out: Vec<Identifier> = Vec::new();
            let mut i: usize = 0;
            proof {
                assert(ids_view(out@) =~= Seq::<IdView>::empty());
            }
            while i < values.len()
                invariant
                    rv == raw_view(raw@),
                    vv == values@.map_values(|m: MaybeIdentifier| m@),
                    i <= values@.len(),
                    ids_view(stack@) == s1,
                    stack@ == old(stack)@.push(stack@.last()),
                    stack@.len() == old(stack)@.len() + 1,
                    unstacked(rv, s1) < unstacked(rv, s0),
                    s0 == ids_view(old(stack)@),
                    (ids_view(out@), cache_view(cache@)) == expand_values_spec(
                        rv,
                        vv,
                        i as nat,
                        c0,
                        s1,
                    ),
                decreases values@.len() - i,
            {
                let ghost prev = ids_view(out@);
                match &values[i] {
                    MaybeIdentifier::Identifier(x) => {
                        out.push(x.clone());
                        proof {
                            assert(ids_view(out@) =~= prev.push(x@));
                        }
                    },
                    MaybeIdentifier::Reference(name) => {
                        let target = resolve(name.as_str());
                        let mut e = expand_id(&target, raw, cache, stack);
                        let ghost ev = ids_view(e@);
                        out.append(&mut e);
                        proof {
                            assert(ids_view(out@) =~= prev + ev);
                        }
                    },
                }
                i = i + 1;
            }
            stack.pop();
            proof {
                assert(stack@ =~= old(stack)@);
                assert(vv.len() == values@.len());
            }
            let u = dedup_ids(&out);
            cache_store(cache, id.clone(), clone_ids(&u));
            u
        },
    }
}

/// Expands every tag (see `expand_id_spec`), walking them in order with
/// one cache for all.
pub fn expand_all(raw: &Vec<(Identifier, Vec<MaybeIdentifier>)>) -> (r: Vec<
    (Identifier, Vec<Identifier>),
>)
    ensures
        cache_view(r@) == expand_all_spec(raw_view(raw@), raw@.len()),
        no_repeats(keys_of(cache_view(r@))),
{
    proof {
        lemma_expansion_sources(raw_view(raw@));
    }
    let mut cache: Vec<(Identifier, Vec<Identifier>)> = Vec::new();
    let mut i: usize = 0;
    proof {
        assert(cache_view(cache@) =~= Seq::<(IdView, Seq<IdView>)>::empty());
    }
    while i < raw.len()
        invariant
            i <= raw@.len(),
            cache_view(cache@) == expand_all_spec(raw_view(raw@), i as nat),
        decreases raw@.len() - i,
    {
        let mut stack: Vec<Identifier> = Vec::new();
        proof {
            assert(ids_view(stack@) =~= Seq::<IdView>::empty());
        }
        let e = expand_id(&raw[i].0, raw, &mut cache, &mut stack);
        cache_store(&mut cache, raw[i].0.clone(), e);
        i = i + 1;
    }
    cache
}


/// One tag file: the components of its path below the tags directory, and
/// the strings of its `values` list.
pub struct TagFile {
    pub path: Vec<String>,
    pub values: Vec<String>,
}

impl View for TagFile {
    type V = (Seq<Seq<char>>, Seq<Seq<char>>);

    open spec fn view(&self) -> (Seq<Seq<char>>, Seq<Seq<char>>) {
        (self.path@.map_values(|c: String| c@), self.values@.map_values(|v: String| v@))
    }
}

/// A file defines a tag when its name (the last component of its path) has
/// the extension `json`.
pub open spec fn defines_tag(path: Seq<Seq<char>>) -> bool {
    path.len() > 0 && crate::registry::json_stem(path.last()) is Some
}

/// The files that can be read: no `json` file lies directly in the tags
/// directory, outside a registry's directory.
pub open spec fn tag_files_readable(files: Seq<TagFile>) -> bool {
    forall|i: int|
        0 <= i < files.len() && defines_tag(files[i]@.0) ==> (#[trigger] files[i]).path@.len() != 1
}

/// The tags that the first `n` files define, in `namespace`: a file whose
/// name does not have the extension `json` defines none; a later file for
/// the same tag replaces the values of an earlier one and keeps its place.
pub open spec fn collect_spec(
    namespace: Seq<char>,
    files: Seq<(Seq<Seq<char>>, Seq<Seq<char>>)>,
    n: nat,
) -> RawTags
    decreases n,
{
    if n == 0 {
        Seq::empty()
    } else {
        let r = collect_spec(namespace, files, (n - 1) as nat);
        let f = files[n - 1];
        if !defines_tag(f.0) {
            r
        } else {
            cache_insert(
                r,
                (namespace, tag_path_spec(f.0)),
                f.1.map_values(|v: Seq<char>| tag_value_spec(v)),
            )
        }
    }
}

pub open spec fn files_view(files: Seq<TagFile>) -> Seq<(Seq<Seq<char>>, Seq<Seq<char>>)> {
    files.map_values(|f: TagFile| f@)
}

fn raw_store(
    raw: &mut Vec<(Identifier, Vec<MaybeIdentifier>)>,
    id: Identifier,
    v: Vec<MaybeIdentifier>,
)
    ensures
        raw_view(final(raw)@) == cache_insert(
            raw_view(old(raw)@),
            id@,
            v@.map_values(|m: MaybeIdentifier| m@),
        ),
{
    let found = find_id(raw, &id);
    proof {
        assert(keys_of(raw_view(raw@)) =~= Seq::new(raw@.len(), |i: int| raw@[i].0@));
    }
    let ghost id_v = id@;
    let ghost v_v = v@.map_values(|m: MaybeIdentifier| m@);
    let ghost before = raw_view(raw@);
    match found {
        Some(k) => {
            proof {
                lemma_key_index(keys_of(before), id@, raw@.len() as nat);
            }
            raw.set(k, (id, v));
            proof {
                assert(raw_view(raw@) =~= before.update(k as int, (id_v, v_v)));
            }
        },
        None => {
            raw.push((id, v));
            proof {
                assert(raw_view(raw@) =~= before.push((id_v, v_v)));
            }
        },
    }
}

/// The tags that the files define, each with the values of its file read
/// (see `collect_spec`).
pub fn collect_tags(namespace: &str, files: &Vec<TagFile>) -> (r: Vec<
    (Identifier, Vec<MaybeIdentifier>),
>)
    requires
        tag_files_readable(files@),
    ensures
        raw_view(r@) == collect_spec(namespace@, files_view(files@), files@.len()),
{
    let mut raw: Vec<(Identifier, Vec<MaybeIdentifier>)> = Vec::new();
    let mut i: usize = 0;
    proof {
        assert(raw_view(raw@) =~= Seq::<(IdView, Seq<MaybeIdView>)>::empty());
    }
    while i < files.len()
        invariant
            i <= files@.len(),
            tag_files_readable(files@),
            raw_view(raw@) == collect_spec(namespace@, files_view(files@), i as nat),
        decreases files@.len() - i,
    {
        let file = &files[i];
        let ghost fv = files_view(files@)[i as int];
        let n = file.path.len();
        let kept = n > 0 && crate::registry::json_file_stem(file.path[n - 1].as_str()).is_some();
        proof {
            assert(fv == file@);
            if n > 0 {
                assert(fv.0.last() == file.path@[n - 1]@);
            }
            assert(kept == defines_tag(fv.0));
        }
        if !kept {
            i = i + 1;
            continue;
        }
        match tag_path(&file.path) {
            None => {},
            Some(p) => {
                let mut values: Vec<MaybeIdentifier> = Vec::new();
                let mut j: usize = 0;
                while j < file.values.len()
                    invariant
                        j <= file.values@.len(),
                        fv == file@,
                        values@.map_values(|m: MaybeIdentifier| m@) == fv.1.take(j as int).map_values(
                            |v: Seq<char>| tag_value_spec(v),
                        ),
                    decreases file.values@.len() - j,
                {
                    let ghost before = values@;
                    let m = parse_tag_value(file.values[j].as_str());
                    values.push(m);
                    proof {
                        assert(fv.1[j as int] == file.values@[j as int]@);
                        assert(before.map_values(|m: MaybeIdentifier| m@).len() == before.len());
                        assert(fv.1.take(j + 1) =~= fv.1.take(j as int).push(fv.1[j as int]));
                        let lhs = values@.map_values(|m: MaybeIdentifier| m@);
                        let rhs = fv.1.take(j + 1).map_values(|v: Seq<char>| tag_value_spec(v));
                        let old_rhs = fv.1.take(j as int).map_values(|v: Seq<char>| tag_value_spec(v));
                        assert(values@ == before.push(m));
                        assert forall|k: int| 0 <= k <= j implies lhs[k] == rhs[k] by {
                            if k < j {
                                assert(lhs[k] == before[k]@);
                                assert(old_rhs[k] == rhs[k]);
                                assert(before.map_values(|m: MaybeIdentifier| m@)[k] == old_rhs[k]);
                            } else {
                                assert(lhs[k] == m@);
                            }
                        }
                        assert(lhs =~= rhs);
                    }
                    j = j + 1;
                }
                proof {
                    assert(fv.1.take(fv.1.len() as int) =~= fv.1);
                }
                let id = Identifier::with_namespace(namespace, p.as_str());
                raw_store(&mut raw, id, values);
            },
        }
        i = i + 1;
    }
    raw
}

/// The tags that the files define, each with its values expanded (see
/// `collect_spec` and `expand_all_spec`).
pub fn load_tags(namespace: &str, files: &Vec<TagFile>) -> (r: Vec<(Identifier, Vec<Identifier>)>)
    requires
        tag_files_readable(files@),
    ensures
        cache_view(r@) == expand_all_spec(
            collect_spec(namespace@, files_view(files@), files@.len()),
            collect_spec(namespace@, files_view(files@), files@.len()).len(),
        ),
        no_repeats(keys_of(cache_view(r@))),
{
    let raw = collect_tags(namespace, files);
    expand_all(&raw)
}


/// No element occurs twice.
pub open spec fn no_repeats(s: Seq<IdView>) -> bool {
    forall|i: int, j: int| 0 <= i < j < s.len() ==> s[i] != s[j]
}

/// The values all name identifiers: none refers to another tag.
pub open spec fn all_plain(values: Seq<MaybeIdView>) -> bool {
    forall|i: int| 0 <= i < values.len() ==> values[i] is Identifier
}

/// The identifiers that plain values name.
pub open spec fn plain_ids(values: Seq<MaybeIdView>) -> Seq<IdView> {
    values.map_values(|m: MaybeIdView| m->Identifier_0)
}

/// `id` is defined, and its values refer to no other tag.
pub open spec fn is_plain_tag(raw: RawTags, id: IdView) -> bool {
    match find_key(raw, id) {
        Some(k) => all_plain(raw[k].1),
        None => false,
    }
}

/// What a tag without references expands to: its identifiers, each once.
pub open spec fn plain_expansion(raw: RawTags, id: IdView) -> Seq<IdView> {
    dedup(plain_ids(raw[find_key(raw, id)->0].1))
}

/// What every stored expansion keeps.
pub open spec fn cache_ok(raw: RawTags, cache: TagCache) -> bool {
    forall|j: int|
        0 <= j < cache.len() ==> no_repeats(#[trigger] cache[j].1) && (is_plain_tag(raw, cache[j].0)
            ==> cache[j].1 == plain_expansion(raw, cache[j].0))
}

/// Every key of `a` is a key of `b`.
pub open spec fn keys_kept<V, W>(a: Seq<(IdView, V)>, b: Seq<(IdView, W)>) -> bool {
    forall|j: int| 0 <= j < a.len() ==> keys_of(b).contains(#[trigger] a[j].0)
}

proof fn lemma_dedup(s: Seq<IdView>)
    ensures
        no_repeats(dedup(s)),
        forall|x: IdView| dedup(s).contains(x) <==> s.contains(x),
    decreases s.len(),
{
    if s.len() > 0 {
        lemma_dedup(s.drop_last());
        assert forall|x: IdView| dedup(s).contains(x) <==> s.contains(x) by {
            if s.contains(x) && x != s.last() {
                let i = choose|i: int| 0 <= i < s.len() && s[i] == x;
                assert(s.drop_last()[i] == x);
            }
            if s.drop_last().contains(x) {
                let i = choose|i: int| 0 <= i < s.drop_last().len() && s.drop_last()[i] == x;
                assert(s[i] == x);
            }
            if dedup(s) != dedup(s.drop_last()) {
                assert(dedup(s) == dedup(s.drop_last()).push(s.last()));
                if dedup(s).contains(x) && x != s.last() {
                    let i = choose|i: int| 0 <= i < dedup(s).len() && dedup(s)[i] == x;
                    assert(dedup(s.drop_last())[i] == x);
                }
                if dedup(s.drop_last()).contains(x) {
                    let i = choose|i: int|
                        0 <= i < dedup(s.drop_last()).len() && dedup(s.drop_last())[i] == x;
                    assert(dedup(s)[i] == x);
                }
                assert(dedup(s)[dedup(s).len() - 1] == s.last());
            }
        }
    }
}

proof fn lemma_keys_insert<V>(s: Seq<(IdView, V)>, id: IdView, v: V)
    ensures
        keys_kept(s, cache_insert(s, id, v)),
        keys_of(cache_insert(s, id, v)).contains(id),
        find_key(cache_insert(s, id, v), id) matches Some(k) && cache_insert(s, id, v)[k] == (
        id,
        v,
        ),
        forall|j: int|
            0 <= j < cache_insert(s, id, v).len() ==> #[trigger] cache_insert(s, id, v)[j] == (
            id,
            v,
            ) || (j < s.len() && cache_insert(s, id, v)[j] == s[j]),
{
    let t = cache_insert(s, id, v);
    lemma_key_index(keys_of(s), id, s.len());
    lemma_key_index(keys_of(t), id, t.len());
    assert forall|j: int| 0 <= j < s.len() implies keys_of(t).contains(#[trigger] s[j].0) by {
        assert(keys_of(t)[j] == s[j].0);
    }
    match find_key(s, id) {
        Some(k) => {
            assert(keys_of(t)[k] == id);
            assert(keys_of(t) =~= keys_of(s));
        },
        None => {
            assert(keys_of(t)[s.len() as int] == id);
            assert(keys_of(t).drop_last() =~= keys_of(s));
            lemma_key_index(keys_of(t), id, s.len());
            assert forall|j: int| 0 <= j < s.len() implies keys_of(t)[j] != id by {
                assert(keys_of(t)[j] == keys_of(s)[j]);
            }
            assert(key_index(keys_of(t), id, s.len()) is None);
        },
    }
}

proof fn lemma_cache_insert_ok(raw: RawTags, cache: TagCache, id: IdView, v: Seq<IdView>)
    requires
        cache_ok(raw, cache),
        no_repeats(v),
        is_plain_tag(raw, id) ==> v == plain_expansion(raw, id),
    ensures
        cache_ok(raw, cache_insert(cache, id, v)),
{
    lemma_keys_insert(cache, id, v);
    let t = cache_insert(cache, id, v);
    assert forall|j: int| 0 <= j < t.len() implies no_repeats(#[trigger] t[j].1) && (is_plain_tag(
        raw,
        t[j].0,
    ) ==> t[j].1 == plain_expansion(raw, t[j].0)) by {
        if t[j] != (id, v) {
            assert(t[j] == cache[j]);
        }
    }
}

proof fn lemma_plain_values(
    raw: RawTags,
    values: Seq<MaybeIdView>,
    n: nat,
    cache: TagCache,
    stack: Seq<IdView>,
)
    requires
        n <= values.len(),
        all_plain(values),
    ensures
        expand_values_spec(raw, values, n, cache, stack) == (
            plain_ids(values.take(n as int)),
            cache,
        ),
    decreases n,
{
    if n > 0 {
        lemma_plain_values(raw, values, (n - 1) as nat, cache, stack);
        assert(plain_ids(values.take(n as int)) =~= plain_ids(values.take(n - 1)).push(
            values[n - 1]->Identifier_0,
        ));
    }
}

/// What `expand_id_spec` keeps: stored expansions stay sound and stored
/// tags stay stored, the result repeats nothing, and a tag without
/// references expands to its own identifiers.
proof fn lemma_expand_id(raw: RawTags, id: IdView, cache: TagCache, stack: Seq<IdView>)
    requires
        cache_ok(raw, cache),
        forall|i: int| 0 <= i < stack.len() ==> !is_plain_tag(raw, #[trigger] stack[i]),
    ensures
        cache_ok(raw, expand_id_spec(raw, id, cache, stack).1),
        keys_kept(cache, expand_id_spec(raw, id, cache, stack).1),
        no_repeats(expand_id_spec(raw, id, cache, stack).0),
        is_plain_tag(raw, id) ==> expand_id_spec(raw, id, cache, stack).0 == plain_expansion(
            raw,
            id,
        ),
    decreases unstacked(raw, stack), 0nat, 0nat,
{
    lemma_key_index(keys_of(cache), id, cache.len());
    lemma_key_index(keys_of(raw), id, raw.len());
    assert(keys_kept(cache, cache)) by {
        assert forall|j: int| 0 <= j < cache.len() implies keys_of(cache).contains(
            #[trigger] cache[j].0,
        ) by {
            assert(keys_of(cache)[j] == cache[j].0);
        }
    }
    match find_key(cache, id) {
        Some(k) => {
            assert(cache[k].0 == id);
        },
        None => {
            if stack.contains(id) {
                if is_plain_tag(raw, id) {
                    let i = choose|i: int| 0 <= i < stack.len() && stack[i] == id;
                    assert(!is_plain_tag(raw, stack[i]));
                }
            } else {
                match find_key(raw, id) {
                    None => {
                        lemma_cache_insert_ok(raw, cache, id, Seq::empty());
                        lemma_keys_insert(cache, id, Seq::<IdView>::empty());
                    },
                    Some(k) => {
                        lemma_push_unstacked(raw, stack, id, raw.len(), k);
                        let values = raw[k].1;
                        let s1 = stack.push(id);
                        assert(s1.drop_last() =~= stack);
                        lemma_expand_values(raw, values, values.len(), cache, s1, k);
                        let (out, c2) = expand_values_spec(raw, values, values.len(), cache, s1);
                        let u = dedup(out);
                        lemma_dedup(out);
                        if is_plain_tag(raw, id) {
                            lemma_plain_values(raw, values, values.len(), cache, s1);
                            assert(values.take(values.len() as int) =~= values);
                        }
                        lemma_cache_insert_ok(raw, c2, id, u);
                        lemma_keys_insert(c2, id, u);
                        let c3 = cache_insert(c2, id, u);
                        assert forall|j: int| 0 <= j < cache.len() implies keys_of(c3).contains(
                            #[trigger] cache[j].0,
                        ) by {
                            assert(keys_of(c2).contains(cache[j].0));
                            let i = choose|i: int|
                                0 <= i < keys_of(c2).len() && keys_of(c2)[i] == cache[j].0;
                            assert(keys_of(c3).contains(c2[i].0));
                        }
                    },
                }
            }
        },
    }
}

proof fn lemma_expand_values(
    raw: RawTags,
    values: Seq<MaybeIdView>,
    n: nat,
    cache: TagCache,
    stack: Seq<IdView>,
    k: int,
)
    requires
        cache_ok(raw, cache),
        n <= values.len(),
        stack.len() > 0,
        forall|i: int|
            0 <= i < stack.drop_last().len() ==> !is_plain_tag(raw, #[trigger] stack.drop_last()[i]),
        find_key(raw, stack.last()) == Some(k),
        raw[k].1 == values,
    ensures
        cache_ok(raw, expand_values_spec(raw, values, n, cache, stack).1),
        keys_kept(cache, expand_values_spec(raw, values, n, cache, stack).1),
    decreases unstacked(raw, stack), 1nat, n,
{
    if n == 0 {
        assert forall|j: int| 0 <= j < cache.len() implies keys_of(cache).contains(
            #[trigger] cache[j].0,
        ) by {
            assert(keys_of(cache)[j] == cache[j].0);
        }
    } else {
        lemma_expand_values(raw, values, (n - 1) as nat, cache, stack, k);
        let (prev, c1) = expand_values_spec(raw, values, (n - 1) as nat, cache, stack);
        match values[n - 1] {
            MaybeIdView::Identifier(x) => {},
            MaybeIdView::Reference(r) => {
                assert(!all_plain(values));
                assert forall|i: int| 0 <= i < stack.len() implies !is_plain_tag(
                    raw,
                    #[trigger] stack[i],
                ) by {
                    if i < stack.len() - 1 {
                        assert(stack.drop_last()[i] == stack[i]);
                    }
                }
                lemma_expand_id(raw, resolve_name(r), c1, stack);
                let c2 = expand_id_spec(raw, resolve_name(r), c1, stack).1;
                assert forall|j: int| 0 <= j < cache.len() implies keys_of(c2).contains(
                    #[trigger] cache[j].0,
                ) by {
                    assert(keys_of(c1).contains(cache[j].0));
                    let i = choose|i: int|
                        0 <= i < keys_of(c1).len() && keys_of(c1)[i] == cache[j].0;
                    assert(keys_of(c2).contains(c1[i].0));
                }
            },
        }
    }
}


proof fn lemma_keys_kept_trans<U, V, W>(a: Seq<(IdView, U)>, b: Seq<(IdView, V)>, c: Seq<(IdView, W)>)
    requires
        keys_kept(a, b),
        keys_kept(b, c),
    ensures
        keys_kept(a, c),
{
    assert forall|j: int| 0 <= j < a.len() implies keys_of(c).contains(#[trigger] a[j].0) by {
        assert(keys_of(b).contains(a[j].0));
        let i = choose|i: int| 0 <= i < keys_of(b).len() && keys_of(b)[i] == a[j].0;
        assert(keys_of(c).contains(b[i].0));
    }
}

proof fn lemma_expand_all_upto(raw: RawTags, n: nat)
    requires
        n <= raw.len(),
    ensures
        cache_ok(raw, expand_all_spec(raw, n)),
        forall|j: int| 0 <= j < n ==> keys_of(expand_all_spec(raw, n)).contains(#[trigger] raw[j].0),
    decreases n,
{
    if n > 0 {
        lemma_expand_all_upto(raw, (n - 1) as nat);
        let c = expand_all_spec(raw, (n - 1) as nat);
        let id = raw[n - 1].0;
        lemma_expand_id(raw, id, c, Seq::empty());
        let (e, c2) = expand_id_spec(raw, id, c, Seq::empty());
        lemma_cache_insert_ok(raw, c2, id, e);
        lemma_keys_insert(c2, id, e);
        let c3 = cache_insert(c2, id, e);
        lemma_keys_kept_trans(c, c2, c3);
        assert forall|j: int| 0 <= j < n implies keys_of(c3).contains(#[trigger] raw[j].0) by {
            if j < n - 1 {
                assert(keys_of(c).contains(raw[j].0));
                let i = choose|i: int| 0 <= i < keys_of(c).len() && keys_of(c)[i] == raw[j].0;
                assert(keys_of(c3).contains(c[i].0));
            }
        }
    }
}

/// Every tag that is read has an expansion, and no expansion lists an
/// identifier twice.
pub proof fn lemma_expansions_complete_without_repeats(raw: RawTags)
    ensures
        forall|j: int|
            0 <= j < raw.len() ==> keys_of(expand_all_spec(raw, raw.len())).contains(
                #[trigger] raw[j].0,
            ),
        forall|j: int|
            0 <= j < expand_all_spec(raw, raw.len()).len() ==> no_repeats(
                #[trigger] expand_all_spec(raw, raw.len())[j].1,
            ),
{
    lemma_expand_all_upto(raw, raw.len());
}

/// A tag whose values refer to no other tag expands to its own
/// identifiers, each once, in the order of their first occurrence.
pub proof fn lemma_plain_tag_expansion(raw: RawTags, id: IdView)
    requires
        is_plain_tag(raw, id),
    ensures
        find_key(expand_all_spec(raw, raw.len()), id) matches Some(k) && expand_all_spec(
            raw,
            raw.len(),
        )[k] == (id, plain_expansion(raw, id)),
{
    let result = expand_all_spec(raw, raw.len());
    lemma_expand_all_upto(raw, raw.len());
    lemma_key_index(keys_of(raw), id, raw.len());
    let k = find_key(raw, id)->0;
    assert(keys_of(raw)[k] == raw[k].0);
    assert(keys_of(result).contains(raw[k].0));
    lemma_key_index(keys_of(result), id, result.len());
    let i = choose|i: int| 0 <= i < keys_of(result).len() && keys_of(result)[i] == id;
    assert(keys_of(result)[i] == id);
    let k2 = find_key(result, id)->0;
    assert(result[k2].0 == keys_of(result)[k2]);
}


/// Every reference goes to a tag of lower rank than the tag that holds it,
/// so that no tag refers back to itself through references.
pub open spec fn ranked(raw: RawTags, rank: spec_fn(IdView) -> nat) -> bool {
    forall|k: int, i: int|
        0 <= k < raw.len() && 0 <= i < raw[k].1.len() && (#[trigger] raw[k].1[i]) is Reference
            ==> rank(resolve_name(raw[k].1[i]->Reference_0)) < rank(raw[k].0)
}

/// The first `n` values with each reference replaced by the full expansion
/// of the tag it names (references that do not go to a lower rank than `r`
/// are left out; under `ranked` there are none).
pub open spec fn flatten(
    raw: RawTags,
    rank: spec_fn(IdView) -> nat,
    values: Seq<MaybeIdView>,
    n: nat,
    r: nat,
) -> Seq<IdView>
    decreases r, 0nat, n,
{
    if n == 0 {
        Seq::empty()
    } else {
        let prev = flatten(raw, rank, values, (n - 1) as nat, r);
        match values[n - 1] {
            MaybeIdView::Identifier(x) => prev.push(x),
            MaybeIdView::Reference(name) => {
                let t = resolve_name(name);
                if rank(t) < r {
                    prev + full_expansion(raw, rank, t)
                } else {
                    prev
                }
            },
        }
    }
}

/// Everything a tag stands for: its identifiers, and those of the tags it
/// refers to, in order, each once where it first occurs; nothing for a tag
/// that no file defines.
pub open spec fn full_expansion(raw: RawTags, rank: spec_fn(IdView) -> nat, id: IdView) -> Seq<
    IdView,
>
    decreases rank(id), 1nat, 0nat,
{
    match find_key(raw, id) {
        None => Seq::empty(),
        Some(k) => dedup(flatten(raw, rank, raw[k].1, raw[k].1.len(), rank(id))),
    }
}

/// Every stored expansion is the full expansion of its tag.
pub open spec fn cache_full(raw: RawTags, rank: spec_fn(IdView) -> nat, cache: TagCache) -> bool {
    forall|j: int|
        0 <= j < cache.len() ==> (#[trigger] cache[j]).1 == full_expansion(raw, rank, cache[j].0)
}

proof fn lemma_cache_insert_full(
    raw: RawTags,
    rank: spec_fn(IdView) -> nat,
    cache: TagCache,
    id: IdView,
    v: Seq<IdView>,
)
    requires
        cache_full(raw, rank, cache),
        v == full_expansion(raw, rank, id),
    ensures
        cache_full(raw, rank, cache_insert(cache, id, v)),
{
    lemma_keys_insert(cache, id, v);
    let t = cache_insert(cache, id, v);
    assert forall|j: int| 0 <= j < t.len() implies (#[trigger] t[j]).1 == full_expansion(
        raw,
        rank,
        t[j].0,
    ) by {
        if t[j] != (id, v) {
            assert(t[j] == cache[j]);
        }
    }
}

proof fn lemma_expand_id_full(
    raw: RawTags,
    rank: spec_fn(IdView) -> nat,
    id: IdView,
    cache: TagCache,
    stack: Seq<IdView>,
)
    requires
        ranked(raw, rank),
        cache_full(raw, rank, cache),
        forall|i: int| 0 <= i < stack.len() ==> rank(#[trigger] stack[i]) > rank(id),
    ensures
        expand_id_spec(raw, id, cache, stack).0 == full_expansion(raw, rank, id),
        cache_full(raw, rank, expand_id_spec(raw, id, cache, stack).1),
    decreases unstacked(raw, stack), 0nat, 0nat,
{
    lemma_key_index(keys_of(cache), id, cache.len());
    lemma_key_index(keys_of(raw), id, raw.len());
    match find_key(cache, id) {
        Some(k) => {
            assert(cache[k].0 == keys_of(cache)[k]);
        },
        None => {
            if stack.contains(id) {
                let i = choose|i: int| 0 <= i < stack.len() && stack[i] == id;
                assert(rank(stack[i]) > rank(id));
            } else {
                match find_key(raw, id) {
                    None => {
                        lemma_cache_insert_full(raw, rank, cache, id, Seq::empty());
                    },
                    Some(k) => {
                        lemma_push_unstacked(raw, stack, id, raw.len(), k);
                        let values = raw[k].1;
                        let s1 = stack.push(id);
                        assert(raw[k].0 == keys_of(raw)[k]);
                        assert forall|i: int| 0 <= i < s1.len() implies rank(#[trigger] s1[i])
                            >= rank(id) by {
                            if i < stack.len() {
                                assert(s1[i] == stack[i]);
                            }
                        }
                        lemma_expand_values_full(raw, rank, values, values.len(), cache, s1, k);
                        let (out, c2) = expand_values_spec(raw, values, values.len(), cache, s1);
                        lemma_cache_insert_full(raw, rank, c2, id, dedup(out));
                    },
                }
            }
        },
    }
}

proof fn lemma_expand_values_full(
    raw: RawTags,
    rank: spec_fn(IdView) -> nat,
    values: Seq<MaybeIdView>,
    n: nat,
    cache: TagCache,
    stack: Seq<IdView>,
    k: int,
)
    requires
        ranked(raw, rank),
        cache_full(raw, rank, cache),
        n <= values.len(),
        stack.len() > 0,
        0 <= k < raw.len(),
        raw[k].0 == stack.last(),
        raw[k].1 == values,
        forall|i: int| 0 <= i < stack.len() ==> rank(#[trigger] stack[i]) >= rank(stack.last()),
    ensures
        expand_values_spec(raw, values, n, cache, stack).0 == flatten(
            raw,
            rank,
            values,
            n,
            rank(stack.last()),
        ),
        cache_full(raw, rank, expand_values_spec(raw, values, n, cache, stack).1),
    decreases unstacked(raw, stack), 1nat, n,
{
    if n > 0 {
        lemma_expand_values_full(raw, rank, values, (n - 1) as nat, cache, stack, k);
        let (prev, c1) = expand_values_spec(raw, values, (n - 1) as nat, cache, stack);
        match values[n - 1] {
            MaybeIdView::Identifier(x) => {},
            MaybeIdView::Reference(name) => {
                let t = resolve_name(name);
                assert(raw[k].1[n - 1] is Reference);
                assert(rank(t) < rank(stack.last()));
                lemma_expand_id_full(raw, rank, t, c1, stack);
            },
        }
    }
}

proof fn lemma_expand_all_full(raw: RawTags, rank: spec_fn(IdView) -> nat, n: nat)
    requires
        ranked(raw, rank),
        n <= raw.len(),
    ensures
        cache_full(raw, rank, expand_all_spec(raw, n)),
    decreases n,
{
    if n > 0 {
        lemma_expand_all_full(raw, rank, (n - 1) as nat);
        let c = expand_all_spec(raw, (n - 1) as nat);
        let id = raw[n - 1].0;
        lemma_expand_id_full(raw, rank, id, c, Seq::empty());
        let (e, c2) = expand_id_spec(raw, id, c, Seq::empty());
        lemma_cache_insert_full(raw, rank, c2, id, e);
    }
}

/// Law: where no tag refers back to itself through references (every
/// reference goes to a tag of lower rank), every tag expands to everything
/// it stands for: its own identifiers and, in place of each reference, the
/// full expansion of the tag named, each identifier once where it first
/// occurs.
pub proof fn lemma_ranked_expansion(raw: RawTags, rank: spec_fn(IdView) -> nat)
    requires
        ranked(raw, rank),
    ensures
        forall|j: int|
            0 <= j < expand_all_spec(raw, raw.len()).len() ==> (#[trigger] expand_all_spec(
                raw,
                raw.len(),
            )[j]).1 == full_expansion(raw, rank, expand_all_spec(raw, raw.len())[j].0),
{
    lemma_expand_all_full(raw, rank, raw.len());
}


/// No tag is reached again from a tag that it refers to: the references
/// between tags hold no cycle.
pub open spec fn no_reference_cycle(raw: RawTags) -> bool {
    forall|k: int, i: int, n: nat|
        #![trigger raw[k].1[i], reaches(raw, resolve_name(raw[k].1[i]->Reference_0), raw[k].0, n)]
        0 <= k < raw.len() && 0 <= i < raw[k].1.len() && raw[k].1[i] is Reference ==> !reaches(
            raw,
            resolve_name(raw[k].1[i]->Reference_0),
            raw[k].0,
            n,
        )
}

/// The tags that a file defines and that `id` reaches through references,
/// `id` itself included where a file defines it.
pub open spec fn reached_tags(raw: RawTags, id: IdView) -> Set<IdView> {
    Set::new(
        |t: IdView| keys_of(raw).contains(t) && exists|n: nat| #[trigger] reaches(raw, id, t, n),
    )
}

/// Ranks each tag by how many defined tags it reaches.
pub open spec fn reach_rank(raw: RawTags) -> spec_fn(IdView) -> nat {
    |id: IdView| reached_tags(raw, id).len()
}

proof fn lemma_find_key_distinct<V>(s: Seq<(IdView, V)>, k: int)
    requires
        no_repeats(keys_of(s)),
        0 <= k < s.len(),
    ensures
        find_key(s, s[k].0) == Some(k),
{
    let keys = keys_of(s);
    lemma_key_index(keys, s[k].0, s.len());
    assert(keys[k] == s[k].0);
    match find_key(s, s[k].0) {
        Some(q) => {
            if q < k {
                assert(keys[q] != keys[k]);
            } else if q > k {
                assert(keys[k] != keys[q]);
            }
        },
        None => {},
    }
}

/// Without reference cycles, a tag reaches fewer defined tags than any tag
/// that refers to it.
proof fn lemma_reach_rank_ranked(raw: RawTags)
    requires
        no_repeats(keys_of(raw)),
        no_reference_cycle(raw),
    ensures
        ranked(raw, reach_rank(raw)),
{
    let keys = keys_of(raw);
    let all = keys.to_set();
    assert forall|k: int, i: int|
        0 <= k < raw.len() && 0 <= i < raw[k].1.len() && (#[trigger] raw[k].1[i]) is Reference
            implies reach_rank(raw)(resolve_name(raw[k].1[i]->Reference_0)) < reach_rank(raw)(
        raw[k].0,
    ) by {
        let a = raw[k].0;
        let b = resolve_name(raw[k].1[i]->Reference_0);
        let ra = reached_tags(raw, a);
        let rb = reached_tags(raw, b);
        lemma_find_key_distinct(raw, k);
        assert(tag_values_of(raw, a) == raw[k].1);
        vstd::seq_lib::seq_to_set_is_finite(keys);
        assert(ra.subset_of(all));
        assert(rb.subset_of(all));
        vstd::set_lib::lemma_set_subset_finite(all, ra);
        vstd::set_lib::lemma_set_subset_finite(all, rb);
        assert(keys[k] == a);
        assert(reaches(raw, a, a, 0));
        assert(ra.contains(a));
        assert forall|t: IdView| rb.contains(t) implies ra.remove(a).contains(t) by {
            let n = choose|n: nat| #[trigger] reaches(raw, b, t, n);
            assert(tag_values_of(raw, a)[i] is Reference);
            assert(reaches(raw, a, t, n + 1));
            if t == a {
                assert(!reaches(raw, resolve_name(raw[k].1[i]->Reference_0), raw[k].0, n));
            }
        }
        vstd::set_lib::lemma_len_subset(rb, ra.remove(a));
    }
}

/// Law: where tags are defined once each and no tag is reached again from a
/// tag that it refers to, every tag expands to everything it stands for
/// (see `lemma_ranked_expansion`), tags ranked by how many defined tags they
/// reach.
pub proof fn lemma_acyclic_expansion(raw: RawTags)
    requires
        no_repeats(keys_of(raw)),
        no_reference_cycle(raw),
    ensures
        forall|j: int|
            0 <= j < expand_all_spec(raw, raw.len()).len() ==> (#[trigger] expand_all_spec(
                raw,
                raw.len(),
            )[j]).1 == full_expansion(raw, reach_rank(raw), expand_all_spec(raw, raw.len())[j].0),
{
    lemma_reach_rank_ranked(raw);
    lemma_ranked_expansion(raw, reach_rank(raw));
}


proof fn lemma_key_index_prefix(a: Seq<IdView>, b: Seq<IdView>, x: IdView, n: nat)
    requires
        n <= a.len(),
        n <= b.len(),
        forall|j: int| 0 <= j < n ==> a[j] == b[j],
    ensures
        key_index(a, x, n) == key_index(b, x, n),
    decreases n,
{
    if n > 0 {
        lemma_key_index_prefix(a, b, x, (n - 1) as nat);
    }
}

proof fn lemma_find_other<V>(s: Seq<(IdView, V)>, id: IdView, v: V, x: IdView)
    requires
        x != id,
    ensures
        find_key(cache_insert(s, id, v), x) == find_key(s, x),
        find_key(s, x) matches Some(k) ==> cache_insert(s, id, v)[k] == s[k],
{
    let t = cache_insert(s, id, v);
    lemma_key_index(keys_of(s), id, s.len());
    lemma_key_index(keys_of(s), x, s.len());
    match find_key(s, id) {
        Some(k) => {
            assert(keys_of(t) =~= keys_of(s));
        },
        None => {
            lemma_key_index_prefix(keys_of(t), keys_of(s), x, s.len());
            assert(keys_of(t)[s.len() as int] == id);
        },
    }
}

/// The last of the first `n` files that defines tag `id`.
pub open spec fn last_file_for(
    namespace: Seq<char>,
    files: Seq<(Seq<Seq<char>>, Seq<Seq<char>>)>,
    n: nat,
    id: IdView,
) -> Option<int>
    decreases n,
{
    if n == 0 {
        None
    } else if defines_tag(files[n - 1].0) && (namespace, tag_path_spec(files[n - 1].0)) == id {
        Some(n - 1)
    } else {
        last_file_for(namespace, files, (n - 1) as nat, id)
    }
}

/// Law: the tags read from the files hold each tag once, with the values
/// of the last file that defines it.
pub proof fn lemma_collect_last_file_wins(
    namespace: Seq<char>,
    files: Seq<(Seq<Seq<char>>, Seq<Seq<char>>)>,
    n: nat,
    id: IdView,
)
    requires
        n <= files.len(),
    ensures
        no_repeats(keys_of(collect_spec(namespace, files, n))),
        find_key(collect_spec(namespace, files, n), id) is Some <==> last_file_for(
            namespace,
            files,
            n,
            id,
        ) is Some,
        find_key(collect_spec(namespace, files, n), id) matches Some(k) ==> collect_spec(
            namespace,
            files,
            n,
        )[k] == (
            id,
            files[last_file_for(namespace, files, n, id)->0].1.map_values(
                |v: Seq<char>| tag_value_spec(v),
            ),
        ),
    decreases n,
{
    if n > 0 {
        lemma_collect_last_file_wins(namespace, files, (n - 1) as nat, id);
        let r = collect_spec(namespace, files, (n - 1) as nat);
        let f = files[n - 1];
        if defines_tag(f.0) {
            let key = (namespace, tag_path_spec(f.0));
            let vals = f.1.map_values(|v: Seq<char>| tag_value_spec(v));
            let t = cache_insert(r, key, vals);
            lemma_keys_insert(r, key, vals);
            lemma_key_index(keys_of(r), key, r.len());
            assert(no_repeats(keys_of(t))) by {
                lemma_collect_last_file_wins(namespace, files, (n - 1) as nat, key);
                match find_key(r, key) {
                    Some(k) => {
                        assert(keys_of(t) =~= keys_of(r));
                    },
                    None => {
                        assert(keys_of(t) =~= keys_of(r).push(key));
                        assert forall|i: int, j: int|
                            0 <= i < j < keys_of(t).len() implies keys_of(t)[i] != keys_of(
                            t,
                        )[j] by {
                            if j == r.len() {
                                assert(keys_of(r)[i] != key);
                            }
                        }
                    },
                }
            }
            if key != id {
                lemma_find_other(r, key, vals, id);
            } else {
                lemma_key_index(keys_of(t), id, t.len());
            }
        }
    }
}


/// The values of tag `t`, where a file defines it.
pub open spec fn tag_values_of(raw: RawTags, t: IdView) -> Seq<MaybeIdView> {
    match find_key(raw, t) {
        Some(j) => raw[j].1,
        None => Seq::empty(),
    }
}

/// Tag `b` is reached from tag `a` by following at most `n` references.
pub open spec fn reaches(raw: RawTags, a: IdView, b: IdView, n: nat) -> bool
    decreases n,
{
    a == b || (n > 0 && exists|i: int|
        0 <= i < tag_values_of(raw, a).len() && (#[trigger] tag_values_of(raw, a)[i]) is Reference
            && reaches(
            raw,
            resolve_name(tag_values_of(raw, a)[i]->Reference_0),
            b,
            (n - 1) as nat,
        ))
}

/// Tag `t`'s own values name identifier `x`.
pub open spec fn provides(raw: RawTags, t: IdView, x: IdView) -> bool {
    tag_values_of(raw, t).contains(MaybeIdView::Identifier(x))
}

/// Identifier `x` comes from a tag reached from `k` through references.
pub open spec fn sourced(raw: RawTags, k: IdView, x: IdView) -> bool {
    exists|t: IdView, n: nat| #[trigger] reaches(raw, k, t, n) && provides(raw, t, x)
}

/// Every stored expansion holds only identifiers that come from tags
/// reached from its own tag, and no tag is stored twice.
pub open spec fn cache_sourced(raw: RawTags, cache: TagCache) -> bool {
    &&& no_repeats(keys_of(cache))
    &&& forall|j: int, i: int|
        0 <= j < cache.len() && 0 <= i < cache[j].1.len() ==> sourced(
            raw,
            cache[j].0,
            #[trigger] cache[j].1[i],
        )
}

proof fn lemma_insert_keeps_distinct<V>(s: Seq<(IdView, V)>, id: IdView, v: V)
    requires
        no_repeats(keys_of(s)),
    ensures
        no_repeats(keys_of(cache_insert(s, id, v))),
{
    let t = cache_insert(s, id, v);
    lemma_key_index(keys_of(s), id, s.len());
    match find_key(s, id) {
        Some(k) => {
            assert(keys_of(t) =~= keys_of(s));
        },
        None => {
            assert(keys_of(t) =~= keys_of(s).push(id));
            assert forall|i: int, j: int|
                0 <= i < j < keys_of(t).len() implies keys_of(t)[i] != keys_of(t)[j] by {
                if j == s.len() {
                    assert(keys_of(s)[i] != id);
                }
            }
        },
    }
}

proof fn lemma_cache_insert_sourced(raw: RawTags, cache: TagCache, id: IdView, v: Seq<IdView>)
    requires
        cache_sourced(raw, cache),
        forall|i: int| 0 <= i < v.len() ==> sourced(raw, id, #[trigger] v[i]),
    ensures
        cache_sourced(raw, cache_insert(cache, id, v)),
{
    lemma_keys_insert(cache, id, v);
    lemma_insert_keeps_distinct(cache, id, v);
    let t = cache_insert(cache, id, v);
    assert forall|j: int, i: int| 0 <= j < t.len() && 0 <= i < t[j].1.len() implies sourced(
        raw,
        t[j].0,
        #[trigger] t[j].1[i],
    ) by {
        if t[j] != (id, v) {
            assert(t[j] == cache[j]);
        }
    }
}

proof fn lemma_reaches_step(raw: RawTags, a: IdView, i: int, b: IdView, n: nat)
    requires
        0 <= i < tag_values_of(raw, a).len(),
        tag_values_of(raw, a)[i] is Reference,
        reaches(raw, resolve_name(tag_values_of(raw, a)[i]->Reference_0), b, n),
    ensures
        reaches(raw, a, b, n + 1),
{
}

proof fn lemma_expand_id_sourced(raw: RawTags, id: IdView, cache: TagCache, stack: Seq<IdView>)
    requires
        cache_sourced(raw, cache),
    ensures
        cache_sourced(raw, expand_id_spec(raw, id, cache, stack).1),
        forall|i: int|
            0 <= i < expand_id_spec(raw, id, cache, stack).0.len() ==> sourced(
                raw,
                id,
                #[trigger] expand_id_spec(raw, id, cache, stack).0[i],
            ),
    decreases unstacked(raw, stack), 0nat, 0nat,
{
    lemma_key_index(keys_of(cache), id, cache.len());
    lemma_key_index(keys_of(raw), id, raw.len());
    match find_key(cache, id) {
        Some(k) => {
            assert(cache[k].0 == keys_of(cache)[k]);
            let r = expand_id_spec(raw, id, cache, stack).0;
            assert forall|i: int| 0 <= i < r.len() implies sourced(raw, id, #[trigger] r[i]) by {
                assert(r[i] == cache[k].1[i]);
            }
        },
        None => {
            if stack.contains(id) {
            } else {
                match find_key(raw, id) {
                    None => {
                        lemma_cache_insert_sourced(raw, cache, id, Seq::empty());
                    },
                    Some(k) => {
                        lemma_push_unstacked(raw, stack, id, raw.len(), k);
                        let values = raw[k].1;
                        let s1 = stack.push(id);
                        assert(s1.last() == id);
                        lemma_expand_values_sourced(raw, values, values.len(), cache, s1, k);
                        let (out, c2) = expand_values_spec(raw, values, values.len(), cache, s1);
                        let u = dedup(out);
                        lemma_dedup(out);
                        assert forall|i: int| 0 <= i < u.len() implies sourced(
                            raw,
                            id,
                            #[trigger] u[i],
                        ) by {
                            assert(u.contains(u[i]));
                            assert(out.contains(u[i]));
                            let m = choose|m: int| 0 <= m < out.len() && out[m] == u[i];
                            assert(sourced(raw, id, out[m]));
                        }
                        lemma_cache_insert_sourced(raw, c2, id, u);
                    },
                }
            }
        },
    }
}

proof fn lemma_expand_values_sourced(
    raw: RawTags,
    values: Seq<MaybeIdView>,
    n: nat,
    cache: TagCache,
    stack: Seq<IdView>,
    k: int,
)
    requires
        cache_sourced(raw, cache),
        n <= values.len(),
        stack.len() > 0,
        find_key(raw, stack.last()) == Some(k),
        raw[k].1 == values,
    ensures
        cache_sourced(raw, expand_values_spec(raw, values, n, cache, stack).1),
        forall|i: int|
            0 <= i < expand_values_spec(raw, values, n, cache, stack).0.len() ==> sourced(
                raw,
                stack.last(),
                #[trigger] expand_values_spec(raw, values, n, cache, stack).0[i],
            ),
    decreases unstacked(raw, stack), 1nat, n,
{
    if n > 0 {
        lemma_expand_values_sourced(raw, values, (n - 1) as nat, cache, stack, k);
        let owner = stack.last();
        let (prev, c1) = expand_values_spec(raw, values, (n - 1) as nat, cache, stack);
        let out = expand_values_spec(raw, values, n, cache, stack).0;
        assert(tag_values_of(raw, owner) == values);
        match values[n - 1] {
            MaybeIdView::Identifier(x) => {
                assert(out == prev.push(x));
                assert forall|i: int| 0 <= i < out.len() implies sourced(
                    raw,
                    owner,
                    #[trigger] out[i],
                ) by {
                    if i < prev.len() {
                        assert(out[i] == prev[i]);
                    } else {
                        assert(values[n - 1] == MaybeIdView::Identifier(x));
                        assert(provides(raw, owner, x));
                        assert(reaches(raw, owner, owner, 0));
                    }
                }
            },
            MaybeIdView::Reference(name) => {
                let t = resolve_name(name);
                lemma_expand_id_sourced(raw, t, c1, stack);
                let e = expand_id_spec(raw, t, c1, stack).0;
                assert(out == prev + e);
                assert forall|i: int| 0 <= i < out.len() implies sourced(
                    raw,
                    owner,
                    #[trigger] out[i],
                ) by {
                    if i < prev.len() {
                        assert(out[i] == prev[i]);
                    } else {
                        assert(out[i] == e[i - prev.len()]);
                        assert(sourced(raw, t, e[i - prev.len()]));
                        let (t2, m) = choose|t2: IdView, m: nat|
                            #[trigger] reaches(raw, t, t2, m) && provides(raw, t2, out[i]);
                        lemma_reaches_step(raw, owner, n - 1, t2, m);
                        assert(reaches(raw, owner, t2, m + 1));
                    }
                }
            },
        }
    }
}

proof fn lemma_expand_all_sourced(raw: RawTags, n: nat)
    requires
        n <= raw.len(),
    ensures
        cache_sourced(raw, expand_all_spec(raw, n)),
    decreases n,
{
    if n > 0 {
        lemma_expand_all_sourced(raw, (n - 1) as nat);
        let c = expand_all_spec(raw, (n - 1) as nat);
        let id = raw[n - 1].0;
        lemma_expand_id_sourced(raw, id, c, Seq::empty());
        let (e, c2) = expand_id_spec(raw, id, c, Seq::empty());
        lemma_cache_insert_sourced(raw, c2, id, e);
    } else {
        assert(keys_of(expand_all_spec(raw, 0)) =~= Seq::<IdView>::empty());
    }
}

/// Law: whatever references the tags hold, cycles included, every tag is
/// expanded once, every identifier of an expansion comes from a tag that its
/// tag reaches through references, and a tag that no file defines expands to
/// nothing.
pub proof fn lemma_expansion_sources(raw: RawTags)
    ensures
        no_repeats(keys_of(expand_all_spec(raw, raw.len()))),
        forall|j: int, i: int|
            0 <= j < expand_all_spec(raw, raw.len()).len() && 0 <= i < expand_all_spec(
                raw,
                raw.len(),
            )[j].1.len() ==> sourced(
                raw,
                expand_all_spec(raw, raw.len())[j].0,
                #[trigger] expand_all_spec(raw, raw.len())[j].1[i],
            ),
        forall|j: int|
            0 <= j < expand_all_spec(raw, raw.len()).len() && find_key(
                raw,
                #[trigger] expand_all_spec(raw, raw.len())[j].0,
            ) is None ==> expand_all_spec(raw, raw.len())[j].1.len() == 0,
{
    let r = expand_all_spec(raw, raw.len());
    lemma_expand_all_sourced(raw, raw.len());
    assert forall|j: int|
        0 <= j < r.len() && find_key(raw, #[trigger] r[j].0) is None implies r[j].1.len() == 0 by {
        if r[j].1.len() > 0 {
            assert(sourced(raw, r[j].0, r[j].1[0]));
            let (t, m) = choose|t: IdView, m: nat|
                #[trigger] reaches(raw, r[j].0, t, m) && provides(raw, t, r[j].1[0]);
            assert(tag_values_of(raw, r[j].0).len() == 0);
            assert(t == r[j].0);
            assert(!provides(raw, t, r[j].1[0]));
        }
    }
}


/// The strings among JSON values, in order.
pub open spec fn json_strings(a: Seq<JsonView>) -> Seq<Seq<char>>
    decreases a.len(),
{
    if a.len() == 0 {
        Seq::empty()
    } else {
        let p = json_strings(a.drop_last());
        match a.last() {
            JsonView::String(s) => p.push(s),
            _ => p,
        }
    }
}

/// Every value is a string.
pub open spec fn all_strings(a: Seq<JsonView>) -> bool {
    forall|i: int| 0 <= i < a.len() ==> (#[trigger] a[i]) is String
}

/// The value of the last member named `key`.
pub open spec fn last_member(m: Seq<(Seq<char>, JsonView)>, key: Seq<char>) -> Option<JsonView>
    decreases m.len(),
{
    if m.len() == 0 {
        None
    } else if m.last().0 == key {
        Some(m.last().1)
    } else {
        last_member(m.drop_last(), key)
    }
}

/// The strings of a tag file's `values`, as a tag file is read: first as a
/// tag record (an object whose `values` member is a list of strings, or an
/// array holding just that list), and failing that as a JSON value whose
/// `values` member, where it is an array, gives its string elements;
/// nothing otherwise.
pub open spec fn tag_file_values_spec(json: JsonView) -> Seq<Seq<char>> {
    match json {
        JsonView::Object(m) => match last_member(m, "values"@) {
            Some(JsonView::Array(a)) => json_strings(a),
            _ => Seq::empty(),
        },
        JsonView::Array(items) => if items.len() == 1 && items[0] is Array && all_strings(
            items[0]->Array_0,
        ) {
            json_strings(items[0]->Array_0)
        } else {
            Seq::empty()
        },
        _ => Seq::empty(),
    }
}

fn string_elements(a: &Vec<JsonValue>) -> (r: (Vec<String>, bool))
    ensures
        r.0@.map_values(|x: String| x@) == json_strings(json_seq_view(a@)),
        r.1 == all_strings(json_seq_view(a@)),
{
    let ghost av = json_seq_view(a@);
    let mut out: Vec<String> = Vec::new();
    let mut all = true;
    let mut i: usize = 0;
    while i < a.len()
        invariant
            i <= a@.len(),
            av == json_seq_view(a@),
            out@.map_values(|x: String| x@) == json_strings(av.take(i as int)),
            all == all_strings(av.take(i as int)),
        decreases a@.len() - i,
    {
        let ghost before = out@;
        let ghost t = av.take(i + 1);
        proof {
            assert(t.drop_last() =~= av.take(i as int));
            assert(t.last() == a@[i as int]@);
        }
        match &a[i] {
            JsonValue::String(s) => {
                out.push(s.clone());
                proof {
                    assert(out@.map_values(|x: String| x@) =~= before.map_values(|x: String| x@).push(
                        s@,
                    ));
                }
            },
            _ => {
                all = false;
                proof {
                    assert(!(t[i as int] is String));
                }
            },
        }
        proof {
            if all {
                assert forall|k: int| 0 <= k < t.len() implies (#[trigger] t[k]) is String by {
                    if k < i {
                        assert(t[k] == av.take(i as int)[k]);
                    }
                }
            }
        }
        i = i + 1;
    }
    proof {
        assert(av.take(a@.len() as int) =~= av);
    }
    (out, all)
}

fn is_values_key(k: &String) -> (r: bool)
    ensures
        r == (k@ == "values"@),
{
    proof {
        reveal_strlit("values");
    }
    let s = k.as_str();
    let len = s.unicode_len();
    let r = len == 6 && s.get_char(0) == 'v' && s.get_char(1) == 'a' && s.get_char(2) == 'l'
        && s.get_char(3) == 'u' && s.get_char(4) == 'e' && s.get_char(5) == 's';
    proof {
        if r {
            assert(k@ =~= "values"@);
        } else if k@ == "values"@ {
            assert(k@[0] == 'v' && k@[1] == 'a' && k@[2] == 'l' && k@[3] == 'u' && k@[4] == 'e'
                && k@[5] == 's');
        }
    }
    r
}

/// The strings of a tag file's `values` (see `tag_file_values_spec`).
pub fn tag_file_values(json: &JsonValue) -> (r: Vec<String>)
    ensures
        r@.map_values(|x: String| x@) == tag_file_values_spec(json@),
{
    proof {
        lemma_json_view_unfold(*json);
    }
    match json {
        JsonValue::Object(m) => {
            let ghost mv = members_view(m@);
            let mut i: usize = m.len();
            proof {
                assert(mv.take(mv.len() as int) =~= mv);
            }
            while i > 0 && !is_values_key(&m[i - 1].0)
                invariant
                    i <= m@.len(),
                    mv == members_view(m@),
                    last_member(mv, "values"@) == last_member(mv.take(i as int), "values"@),
                decreases i,
            {
                proof {
                    let t = mv.take(i as int);
                    assert(t.drop_last() =~= mv.take(i - 1));
                }
                i = i - 1;
            }
            proof {
                if i > 0 {
                    let t = mv.take(i as int);
                    assert(t.last() == (m@[i - 1].0@, m@[i - 1].1@));
                }
            }
            if i == 0 {
                return Vec::new();
            }
            let v = &m[i - 1].1;
            proof {
                lemma_json_view_unfold(*v);
            }
            match v {
                JsonValue::Array(a) => string_elements(a).0,
                _ => Vec::new(),
            }
        },
        JsonValue::Array(items) => {
            if items.len() != 1 {
                return Vec::new();
            }
            let first = &items[0];
            proof {
                lemma_json_view_unfold(*first);
            }
            match first {
                JsonValue::Array(a) => {
                    let (strings, all) = string_elements(a);
                    if all {
                        strings
                    } else {
                        Vec::new()
                    }
                },
                _ => Vec::new(),
            }
        },
        _ => Vec::new(),
    }
}

} // verus!
