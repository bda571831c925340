//! What the translation service decides around each request: which
//! sentences may be sent, how API errors are reported, how sentence
//! translations are put back together, and the cache of finished sentences.

use vstd::prelude::*;

use crate::config::{MAX_REQUEST_TEXT_BYTES, RuntimeConfig};
use crate::error::AppError;
use crate::text::{chars_equal, chars_of, join_with};
use crate::tmt::client::{error_text, TmtClient, TmtError};
use crate::translate::sentence::views;

verus! {

/// The size of a text in UTF-8 bytes.
pub open spec fn utf8_len(s: Seq<char>) -> int {
    vstd::utf8::encode_utf8(s).len() as int
}

/// Refuses a sentence longer than `MAX_REQUEST_TEXT_BYTES` UTF-8 bytes.
pub fn check_request_size(sentence: &str) -> (r: Result<(), AppError>)
    ensures
        utf8_len(sentence@) > MAX_REQUEST_TEXT_BYTES ==> r == Err::<(), AppError>(
            (AppError::RequestTooLarge { len: utf8_len(sentence@) as usize, max: MAX_REQUEST_TEXT_BYTES }),
        ),
        utf8_len(sentence@) <= MAX_REQUEST_TEXT_BYTES ==> r is Ok,
{
    let len = sentence.as_bytes().len();
    if len > MAX_REQUEST_TEXT_BYTES {
        return Err(AppError::RequestTooLarge { len, max: MAX_REQUEST_TEXT_BYTES });
    }
    Ok(())
}

/// Reports an API error (transport failures as network errors, anything
/// else as a failed translation with the error's message).
pub fn map_client_error(e: TmtError) -> (r: AppError)
    ensures
        match e {
            TmtError::Transport(m) => r == (AppError::Network { message: m }),
            _ => (r matches AppError::TranslationFailed { message } && message@ == error_text(e)),
        },
{
    match e {
        TmtError::Transport(m) => AppError::Network { message: m },
        other => AppError::TranslationFailed { message: other.describe() },
    }
}

/// The first failed sentence, if any.
pub open spec fn first_failed(results: Seq<Result<String, AppError>>) -> Option<AppError>
    decreases results.len(),
{
    if results.len() == 0 {
        None
    } else {
        match results[0] {
            Err(e) => Some(e),
            Ok(_) => first_failed(results.drop_first()),
        }
    }
}

/// The texts of successful results.
pub open spec fn ok_texts(results: Seq<Result<String, AppError>>) -> Seq<Seq<char>> {
    results.map_values(|r: Result<String, AppError>| match r {
        Ok(s) => s@,
        Err(_) => seq![],
    })
}

/// Puts a text back together from the translations of its sentences: text
/// without sentences is returned as it is, the first failed sentence fails
/// the whole text, and otherwise the translations are joined by spaces.
pub fn finish_translation(text: &str, results: Vec<Result<String, AppError>>) -> (r: Result<String, AppError>)
    ensures
        results@.len() == 0 ==> (r matches Ok(s) && s@ == text@),
        results@.len() > 0 ==> match first_failed(results@) {
            Some(e) => r == Err::<String, AppError>(e),
            None => r matches Ok(s) && s@ == join_with(ok_texts(results@), seq![' ']),
        },
{
    if results.len() == 0 {
        return Ok(text.to_owned());
    }
    let ghost res0 = results@;
    let mut pending = results;
    let mut stack: Vec<Result<String, AppError>> = Vec::new();
    let m = pending.len();
    while pending.len() > 0
        invariant
            pending@.len() + stack@.len() == m,
            m == res0.len(),
            forall|k: int| 0 <= k < pending@.len() ==> pending@[k] == res0[k],
            forall|k: int| 0 <= k < stack@.len() ==> stack@[k] == res0[m - 1 - k],
        decreases pending@.len(),
    {
        let x = pending.pop().unwrap();
        stack.push(x);
    }
    let mut texts: Vec<Vec<char>> = Vec::new();
    let mut i: usize = 0;
    assert(res0.skip(0) =~= res0);
    while i < m
        invariant
            i <= m,
            m == res0.len(),
            res0 == results@,
            stack@.len() == m - i,
            forall|k: int| 0 <= k < stack@.len() ==> stack@[k] == res0[m - 1 - k],
            crate::text::char_views(texts@) == ok_texts(res0).take(i as int),
            first_failed(res0) == first_failed(res0.skip(i as int)),
            forall|k: int| 0 <= k < i ==> res0[k] is Ok,
        decreases m - i,
    {
        let item = stack.pop().unwrap();
        assert(item == res0[i as int]);
        assert(res0.skip(i as int)[0] == res0[i as int]);
        assert(res0.skip(i as int).drop_first() =~= res0.skip(i + 1));
        match item {
            Ok(t) => {
                let c = chars_of(t.as_str());
                let ghost before = texts@;
                texts.push(c);
                assert(crate::text::char_views(texts@) =~= crate::text::char_views(before).push(
                    c@,
                ));
                assert(ok_texts(res0).take(i as int + 1) =~= ok_texts(res0).take(i as int).push(
                    c@,
                ));
            },
            Err(e) => {
                assert(first_failed(res0.skip(i as int)) == Some(e));
                return Err(e);
            },
        }
        i = i + 1;
    }
    assert(ok_texts(res0).take(m as int) =~= ok_texts(res0));
    let sep = vec![' '];
    assert(sep@ =~= seq![' ']);
    let joined = crate::text::join_chars(&texts, &sep);
    Ok(crate::text::string_from_chars(joined.as_slice()))
}

/// Key of a cached translation.
#[derive(Debug, Clone)]
pub struct CacheKey {
    pub sentence: String,
    pub src_lang: String,
    pub tgt_lang: String,
}

/// The plain view of a cache key.
pub open spec fn key_view(k: CacheKey) -> (Seq<char>, Seq<char>, Seq<char>) {
    (k.sentence@, k.src_lang@, k.tgt_lang@)
}

/// Finished sentence translations, by sentence and language pair.
pub struct TranslationCache {
    entries: Vec<(CacheKey, String)>,
}

impl View for TranslationCache {
    type V = Map<(Seq<char>, Seq<char>, Seq<char>), Seq<char>>;

    closed spec fn view(&self) -> Map<(Seq<char>, Seq<char>, Seq<char>), Seq<char>> {
        Map::new(
            |k: (Seq<char>, Seq<char>, Seq<char>)|
                exists|i: int| 0 <= i < self.entries@.len() && key_view(self.entries@[i].0) == k,
            |k: (Seq<char>, Seq<char>, Seq<char>)|
                self.entries@[choose|i: int|
                    0 <= i < self.entries@.len() && key_view(self.entries@[i].0) == k].1@,
        )
    }
}

impl TranslationCache {
    /// Keys are never stored twice.
    pub closed spec fn wf(&self) -> bool {
        forall|i: int, j: int|
            0 <= i < j < self.entries@.len() ==> key_view(self.entries@[i].0) != key_view(
                self.entries@[j].0,
            )
    }

    /// An empty cache.
    pub fn new() -> (c: TranslationCache)
        ensures
            c.wf(),
            c@ == Map::<(Seq<char>, Seq<char>, Seq<char>), Seq<char>>::empty(),
    {
        let c = TranslationCache { entries: Vec::new() };
        assert(c@ =~= Map::<(Seq<char>, Seq<char>, Seq<char>), Seq<char>>::empty());
        c
    }

    fn find(&self, key: &CacheKey) -> (r: Option<usize>)
        ensures
            match r {
                Some(i) => i < self.entries@.len() && key_view(self.entries@[i as int].0)
                    == key_view(*key),
                None => forall|i: int|
                    0 <= i < self.entries@.len() ==> key_view(self.entries@[i].0) != key_view(*key),
            },
    {
        let s = chars_of(key.sentence.as_str());
        let a = chars_of(key.src_lang.as_str());
        let b = chars_of(key.tgt_lang.as_str());
        let mut i: usize = 0;
        while i < self.entries.len()
            invariant
                i <= self.entries@.len(),
                s@ == key.sentence@,
                a@ == key.src_lang@,
                b@ == key.tgt_lang@,
                forall|k: int| 0 <= k < i ==> key_view(self.entries@[k].0) != key_view(*key),
            decreases self.entries.len() - i,
        {
            let e = &self.entries[i].0;
            let es = chars_of(e.sentence.as_str());
            let ea = chars_of(e.src_lang.as_str());
            let eb = chars_of(e.tgt_lang.as_str());
            if chars_equal(&es, &s) && chars_equal(&ea, &a) && chars_equal(&eb, &b) {
                return Some(i);
            }
            i = i + 1;
        }
        None
    }

    /// The cached translation for a key, if any.
    pub fn get(&self, key: &CacheKey) -> (r: Option<String>)
        requires
            self.wf(),
        ensures
            match r {
                Some(v) => self@.contains_key(key_view(*key)) && self@[key_view(*key)] == v@,
                None => !self@.contains_key(key_view(*key)),
            },
    {
        match self.find(key) {
            Some(i) => {
                proof {
                    let k = key_view(*key);
                    assert(self@.dom().contains(k));
                    let j = choose|j: int|
                        0 <= j < self.entries@.len() && key_view(self.entries@[j].0) == k;
                    if j != i {
                        if j < i {
                            assert(key_view(self.entries@[j].0) != key_view(
                                self.entries@[i as int].0,
                            ));
                        } else {
                            assert(key_view(self.entries@[i as int].0) != key_view(
                                self.entries@[j].0,
                            ));
                        }
                    }
                }
                Some(self.entries[i].1.clone())
            },
            None => None,
        }
    }

    /// Stores the translation for a key, replacing any earlier one.
    pub fn insert(&mut self, key: CacheKey, value: String)
        requires
            old(self).wf(),
        ensures
            final(self).wf(),
            final(self)@ == old(self)@.insert(key_view(key), value@),
    {
        let ghost k = key_view(key);
        let ghost v = value@;
        let ghost old_view = self@;
        match self.find(&key) {
            Some(i) => {
                let ghost before = self.entries@;
                self.entries.set(i, (key, value));
                proof {
                    assert forall|a: int, b: int|
                        0 <= a < b < self.entries@.len() implies key_view(self.entries@[a].0)
                        != key_view(self.entries@[b].0) by {
                        assert(key_view(before[i as int].0) == k);
                    }
                    assert forall|q| #[trigger] self@.contains_key(q) == old_view.insert(k, v).contains_key(q) by {
                        if self@.contains_key(q) {
                            let j = choose|j: int| 0 <= j < self.entries@.len() && key_view(self.entries@[j].0) == q;
                            if j != i {
                                assert(key_view(before[j].0) == q);
                            }
                        }
                        if old_view.contains_key(q) {
                            let j = choose|j: int| 0 <= j < before.len() && key_view(before[j].0) == q;
                            if j != i {
                                assert(key_view(self.entries@[j].0) == q);
                            } else {
                                assert(key_view(self.entries@[i as int].0) == q);
                            }
                        }
                        if q == k {
                            assert(key_view(self.entries@[i as int].0) == q);
                        }
                    }
                    assert forall|q| #[trigger] self@.contains_key(q) implies self@[q] == old_view.insert(k, v)[q] by {
                        let j = choose|j: int| 0 <= j < self.entries@.len() && key_view(self.entries@[j].0) == q;
                        if q == k {
                            if j != i {
                                if j < i {
                                    assert(key_view(self.entries@[j].0) != key_view(self.entries@[i as int].0));
                                } else {
                                    assert(key_view(self.entries@[i as int].0) != key_view(self.entries@[j].0));
                                }
                            }
                        } else {
                            assert(j != i);
                            assert(key_view(before[j].0) == q);
                            let j0 = choose|j0: int| 0 <= j0 < before.len() && key_view(before[j0].0) == q;
                            if j0 != j {
                                if j0 < j {
                                    assert(key_view(before[j0].0) != key_view(before[j].0));
                                } else {
                                    assert(key_view(before[j].0) != key_view(before[j0].0));
                                }
                            }
                        }
                    }
                    assert(self@ =~= old_view.insert(k, v));
                }
            },
            None => {
                let ghost before = self.entries@;
                self.entries.push((key, value));
                proof {
                    let n = before.len() as int;
                    assert forall|q| #[trigger] self@.contains_key(q) == old_view.insert(k, v).contains_key(q) by {
                        if self@.contains_key(q) {
                            let j = choose|j: int| 0 <= j < self.entries@.len() && key_view(self.entries@[j].0) == q;
                            if j < n {
                                assert(key_view(before[j].0) == q);
                            }
                        }
                        if old_view.contains_key(q) {
                            let j = choose|j: int| 0 <= j < before.len() && key_view(before[j].0) == q;
                            assert(key_view(self.entries@[j].0) == q);
                        }
                        if q == k {
                            assert(key_view(self.entries@[n].0) == q);
                        }
                    }
                    assert forall|q| #[trigger] self@.contains_key(q) implies self@[q] == old_view.insert(k, v)[q] by {
                        let j = choose|j: int| 0 <= j < self.entries@.len() && key_view(self.entries@[j].0) == q;
                        if q == k {
                            assert(j == n);
                        } else {
                            assert(j < n);
                            assert(key_view(before[j].0) == q);
                            let j0 = choose|j0: int| 0 <= j0 < before.len() && key_view(before[j0].0) == q;
                            if j0 != j {
                                if j0 < j {
                                    assert(key_view(before[j0].0) != key_view(before[j].0));
                                } else {
                                    assert(key_view(before[j].0) != key_view(before[j0].0));
                                }
                            }
                        }
                    }
                    assert(self@ =~= old_view.insert(k, v));
                }
            },
        }
    }
}

/// A cached translation is read back as it was stored, and storing one
/// leaves the other entries as they were.
pub proof fn cache_read_after_write(
    m: Map<(Seq<char>, Seq<char>, Seq<char>), Seq<char>>,
    k: (Seq<char>, Seq<char>, Seq<char>),
    v: Seq<char>,
    other: (Seq<char>, Seq<char>, Seq<char>),
)
    ensures
        m.insert(k, v).contains_key(k),
        m.insert(k, v)[k] == v,
        other != k ==> m.insert(k, v).contains_key(other) == m.contains_key(other),
        other != k && m.contains_key(other) ==> m.insert(k, v)[other] == m[other],
{
}

fn same_key(a: &CacheKey, b: &CacheKey) -> (r: bool)
    ensures
        r == (key_view(*a) == key_view(*b)),
{
    chars_equal(&chars_of(a.sentence.as_str()), &chars_of(b.sentence.as_str())) && chars_equal(
        &chars_of(a.src_lang.as_str()),
        &chars_of(b.src_lang.as_str()),
    ) && chars_equal(&chars_of(a.tgt_lang.as_str()), &chars_of(b.tgt_lang.as_str()))
}

/// The keys of a list of cache keys, as a set.
pub open spec fn keys_set(v: Seq<CacheKey>) -> Set<(Seq<char>, Seq<char>, Seq<char>)> {
    Set::new(|q: (Seq<char>, Seq<char>, Seq<char>)| exists|j: int| 0 <= j < v.len() && key_view(v[j]) == q)
}

proof fn lemma_keys_set_push(v: Seq<CacheKey>, x: CacheKey)
    ensures
        keys_set(v.push(x)) == keys_set(v).insert(key_view(x)),
{
    let w = v.push(x);
    assert forall|q| #[trigger] keys_set(w).contains(q) == keys_set(v).insert(key_view(x)).contains(q) by {
        if keys_set(w).contains(q) {
            let j = choose|j: int| 0 <= j < w.len() && key_view(w[j]) == q;
            if j < v.len() {
                assert(key_view(v[j]) == q);
            }
        }
        if keys_set(v).contains(q) {
            let j = choose|j: int| 0 <= j < v.len() && key_view(v[j]) == q;
            assert(key_view(w[j]) == q);
        }
        if q == key_view(x) {
            assert(key_view(w[v.len() as int]) == q);
        }
    }
    assert(keys_set(w) =~= keys_set(v).insert(key_view(x)));
}

fn copy_key(k: &CacheKey) -> (c: CacheKey)
    ensures
        key_view(c) == key_view(*k),
{
    CacheKey { sentence: k.sentence.clone(), src_lang: k.src_lang.clone(), tgt_lang: k.tgt_lang.clone() }
}

/// Sentences whose translation has been asked for and has not come back.
pub struct PendingSet {
    keys: Vec<CacheKey>,
}

impl View for PendingSet {
    type V = Set<(Seq<char>, Seq<char>, Seq<char>)>;

    closed spec fn view(&self) -> Set<(Seq<char>, Seq<char>, Seq<char>)> {
        keys_set(self.keys@)
    }
}

impl PendingSet {
    /// Nothing pending.
    pub fn new() -> (p: PendingSet)
        ensures
            p@ == Set::<(Seq<char>, Seq<char>, Seq<char>)>::empty(),
    {
        let p = PendingSet { keys: Vec::new() };
        assert(p@ =~= Set::<(Seq<char>, Seq<char>, Seq<char>)>::empty());
        p
    }

    /// Whether a sentence is pending.
    pub fn contains(&self, key: &CacheKey) -> (b: bool)
        ensures
            b == self@.contains(key_view(*key)),
    {
        let mut i: usize = 0;
        while i < self.keys.len()
            invariant
                i <= self.keys@.len(),
                forall|k: int| 0 <= k < i ==> key_view(self.keys@[k]) != key_view(*key),
            decreases self.keys.len() - i,
        {
            if same_key(&self.keys[i], key) {
                assert(key_view(self.keys@[i as int]) == key_view(*key));
                return true;
            }
            i = i + 1;
        }
        false
    }

    /// Marks a sentence pending.
    pub fn insert(&mut self, key: CacheKey)
        ensures
            final(self)@ == old(self)@.insert(key_view(key)),
    {
        proof {
            lemma_keys_set_push(self.keys@, key);
        }
        self.keys.push(key);
    }

    /// Marks a sentence no longer pending.
    pub fn remove(&mut self, key: &CacheKey)
        ensures
            final(self)@ == old(self)@.remove(key_view(*key)),
    {
        let ghost k = key_view(*key);
        let ghost before = self.keys@;
        let mut kept: Vec<CacheKey> = Vec::new();
        let mut i: usize = 0;
        assert(keys_set(kept@) =~= keys_set(before.take(0)).remove(k));
        while i < self.keys.len()
            invariant
                i <= self.keys@.len(),
                before == self.keys@,
                k == key_view(*key),
                keys_set(kept@) == keys_set(before.take(i as int)).remove(k),
            decreases self.keys.len() - i,
        {
            proof {
                assert(before.take(i + 1) =~= before.take(i as int).push(before[i as int]));
                lemma_keys_set_push(before.take(i as int), before[i as int]);
            }
            if !same_key(&self.keys[i], key) {
                let c = copy_key(&self.keys[i]);
                proof {
                    lemma_keys_set_push(kept@, c);
                }
                kept.push(c);
                assert(keys_set(kept@) =~= keys_set(before.take(i + 1)).remove(k));
            } else {
                assert(keys_set(kept@) =~= keys_set(before.take(i + 1)).remove(k));
            }
            i = i + 1;
        }
        assert(before.take(before.len() as int) =~= before);
        self.keys = kept;
    }
}

/// What to do with a sentence that is asked for.
pub enum CacheStep {
    /// Its translation is cached: use it.
    Hit(String),
    /// A request for it is in flight: wait for that one.
    Wait,
    /// Nobody has asked for it yet: make the request, then call `finish`.
    Fetch,
}

/// The cache of finished sentences together with those in flight, so that
/// each distinct sentence is requested once at a time.
pub struct SentenceLedger {
    pub cache: TranslationCache,
    pub pending: PendingSet,
}

impl SentenceLedger {
    /// Nothing cached and nothing in flight.
    pub fn new() -> (l: SentenceLedger)
        ensures
            l.cache.wf(),
            l.cache@ == Map::<(Seq<char>, Seq<char>, Seq<char>), Seq<char>>::empty(),
            l.pending@ == Set::<(Seq<char>, Seq<char>, Seq<char>)>::empty(),
    {
        SentenceLedger { cache: TranslationCache::new(), pending: PendingSet::new() }
    }

    /// Decides what happens to a sentence that is asked for: a cached one is
    /// a hit, one in flight is waited for, and any other is marked in flight
    /// and fetched.
    pub fn begin(&mut self, key: &CacheKey) -> (step: CacheStep)
        requires
            old(self).cache.wf(),
        ensures
            final(self).cache.wf(),
            final(self).cache@ == old(self).cache@,
            old(self).cache@.contains_key(key_view(*key)) ==> (step matches CacheStep::Hit(v)
                && v@ == old(self).cache@[key_view(*key)] && final(self).pending@ == old(self).pending@),
            !old(self).cache@.contains_key(key_view(*key)) && old(self).pending@.contains(key_view(*key))
                ==> (step is Wait && final(self).pending@ == old(self).pending@),
            !old(self).cache@.contains_key(key_view(*key)) && !old(self).pending@.contains(key_view(*key))
                ==> (step is Fetch && final(self).pending@ == old(self).pending@.insert(key_view(*key))),
    {
        match self.cache.get(key) {
            Some(v) => CacheStep::Hit(v),
            None => {
                if self.pending.contains(key) {
                    CacheStep::Wait
                } else {
                    self.pending.insert(copy_key(key));
                    CacheStep::Fetch
                }
            },
        }
    }

    /// Records the outcome of a fetched sentence: it is no longer in flight,
    /// and a translation that came back is cached.
    pub fn finish(&mut self, key: CacheKey, outcome: Option<String>)
        requires
            old(self).cache.wf(),
        ensures
            final(self).cache.wf(),
            final(self).pending@ == old(self).pending@.remove(key_view(key)),
            match outcome {
                Some(v) => final(self).cache@ == old(self).cache@.insert(key_view(key), v@),
                None => final(self).cache@ == old(self).cache@,
            },
    {
        self.pending.remove(&key);
        if let Some(v) = outcome {
            self.cache.insert(key, v);
        }
    }
}

/// A sentence is requested at most once while it is in flight: after a
/// request begins, asking again gives a wait until it finishes, and after it
/// finishes with a translation, asking again gives that translation.
pub proof fn one_request_per_sentence(
    cache: Map<(Seq<char>, Seq<char>, Seq<char>), Seq<char>>,
    pending: Set<(Seq<char>, Seq<char>, Seq<char>)>,
    k: (Seq<char>, Seq<char>, Seq<char>),
    v: Seq<char>,
)
    requires
        !cache.contains_key(k),
        !pending.contains(k),
    ensures
        pending.insert(k).contains(k),
        !pending.insert(k).remove(k).contains(k),
        cache.insert(k, v).contains_key(k) && cache.insert(k, v)[k] == v,
{
}

/// Translates texts sentence by sentence through one client, with at most
/// `concurrency` requests in flight and a ledger of finished and pending
/// sentences.
pub struct TranslationService {
    pub client: TmtClient,
    pub concurrency: usize,
    pub ledger: SentenceLedger,
}

impl TranslationService {
    /// A service for the given client; a concurrency of zero is refused.
    pub fn new(client: TmtClient, config: &RuntimeConfig) -> (r: Result<TranslationService, AppError>)
        ensures
            config.concurrency == 0 <==> (r matches Err(AppError::InvalidArgument { message })
                && message@ == "concurrency must be >= 1"@),
            config.concurrency > 0 ==> (r matches Ok(svc) && svc.client == client
                && svc.concurrency == config.concurrency && svc.ledger.cache.wf()
                && svc.ledger.cache@ == Map::<(Seq<char>, Seq<char>, Seq<char>), Seq<char>>::empty()
                && svc.ledger.pending@ == Set::<(Seq<char>, Seq<char>, Seq<char>)>::empty()),
    {
        if config.concurrency == 0 {
            return Err(AppError::InvalidArgument { message: "concurrency must be >= 1".to_owned() });
        }
        Ok(TranslationService { client, concurrency: config.concurrency, ledger: SentenceLedger::new() })
    }
}

} // verus!
