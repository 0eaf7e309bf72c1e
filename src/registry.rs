//! The registry of known URLs and their short codes.
//!
//! Two parallel indexes hold the pairs; their abstract view is a map from
//! canonical URL to code. Each URL has at most one code (the map is a
//! function) and each code belongs to at most one URL (the map is injective),
//! so resolving a code has at most one answer. Entries are never removed.
use vstd::prelude::*;
use crate::code_gen::{generate_code, is_code, short_url, short_url_of};

verus! {

/// No two URLs share a code.
pub open spec fn injective(m: Map<Seq<char>, Seq<char>>) -> bool {
    forall|u1: Seq<char>, u2: Seq<char>|
        #[trigger] m.contains_key(u1) && #[trigger] m.contains_key(u2) && m[u1] == m[u2] ==> u1
            == u2
}

/// Every code in the registry is `CODE_LEN` characters of the URL-safe
/// alphabet.
pub open spec fn codes_well_formed(m: Map<Seq<char>, Seq<char>>) -> bool {
    forall|u: Seq<char>| #[trigger] m.contains_key(u) ==> is_code(m[u])
}

/// `url` is filed under `code`.
pub open spec fn resolves_to(m: Map<Seq<char>, Seq<char>>, code: Seq<char>, url: Seq<char>) -> bool {
    m.contains_key(url) && m[url] == code
}

/// Some URL is filed under `code`.
pub open spec fn code_in_use(m: Map<Seq<char>, Seq<char>>, code: Seq<char>) -> bool {
    exists|u: Seq<char>| #[trigger] resolves_to(m, code, u)
}

/// One get-or-create step on `url` that hands out `code`: a known URL keeps
/// its code and nothing changes; an unknown one is filed under a code that no
/// other URL holds.
pub open spec fn get_or_create_step(
    pre: Map<Seq<char>, Seq<char>>,
    url: Seq<char>,
    post: Map<Seq<char>, Seq<char>>,
    code: Seq<char>,
) -> bool {
    if pre.contains_key(url) {
        post == pre && code == pre[url]
    } else {
        !code_in_use(pre, code) && post == pre.insert(url, code)
    }
}

/// The registry: every URL that has been shortened, with its code.
pub struct KnownUrls {
    urls: Vec<String>,
    codes: Vec<String>,
    mapping: Ghost<Map<Seq<char>, Seq<char>>>,
}

impl View for KnownUrls {
    type V = Map<Seq<char>, Seq<char>>;

    closed spec fn view(&self) -> Map<Seq<char>, Seq<char>> {
        self.mapping@
    }
}

impl KnownUrls {
    /// The two indexes agree with the map, with no URL and no code twice.
    pub closed spec fn wf(&self) -> bool {
        &&& self.urls@.len() == self.codes@.len()
        &&& forall|i: int|
            0 <= i < self.urls@.len() ==> self.mapping@.contains_key(#[trigger] self.urls@[i]@)
                && self.mapping@[self.urls@[i]@] == self.codes@[i]@
        &&& forall|u: Seq<char>|
            #[trigger] self.mapping@.contains_key(u) ==> exists|i: int|
                0 <= i < self.urls@.len() && #[trigger] self.urls@[i]@ == u
        &&& forall|i: int, j: int|
            0 <= i < self.urls@.len() && 0 <= j < self.urls@.len() && i != j
                ==> #[trigger] self.urls@[i]@ != #[trigger] self.urls@[j]@
        &&& forall|i: int, j: int|
            0 <= i < self.codes@.len() && 0 <= j < self.codes@.len() && i != j
                ==> #[trigger] self.codes@[i]@ != #[trigger] self.codes@[j]@
        &&& forall|i: int| 0 <= i < self.codes@.len() ==> is_code(#[trigger] self.codes@[i]@)
    }

    /// A well-formed registry files no code under two URLs, and each of its
    /// codes has the generated form.
    pub proof fn lemma_wf_injective(&self)
        requires
            self.wf(),
        ensures
            injective(self@),
            codes_well_formed(self@),
    {
        assert forall|u: Seq<char>| #[trigger] self@.contains_key(u) implies is_code(self@[u]) by {
            let i = choose|i: int| 0 <= i < self.urls@.len() && #[trigger] self.urls@[i]@ == u;
            assert(is_code(self.codes@[i]@));
        }
        assert forall|u1: Seq<char>, u2: Seq<char>|
            #[trigger] self@.contains_key(u1) && #[trigger] self@.contains_key(u2) && self@[u1]
                == self@[u2] implies u1 == u2 by {
            let i = choose|i: int| 0 <= i < self.urls@.len() && #[trigger] self.urls@[i]@ == u1;
            let j = choose|j: int| 0 <= j < self.urls@.len() && #[trigger] self.urls@[j]@ == u2;
            assert(self.codes@[i]@ == self.codes@[j]@);
        }
    }

    /// An empty registry.
    pub fn new() -> (r: KnownUrls)
        ensures
            r.wf(),
            r@ == Map::<Seq<char>, Seq<char>>::empty(),
            codes_well_formed(r@),
    {
        KnownUrls { urls: Vec::new(), codes: Vec::new(), mapping: Ghost(Map::empty()) }
    }

    /// Position of `url` in the URL index.
    fn find_url(&self, url: &String) -> (r: Option<usize>)
        requires
            self.wf(),
        ensures
            r is Some ==> r->Some_0 < self.urls@.len() && self.urls@[r->Some_0 as int]@ == url@,
            r is Some <==> self@.contains_key(url@),
    {
        let mut i: usize = 0;
        while i < self.urls.len()
            invariant
                self.wf(),
                i <= self.urls@.len(),
                forall|k: int| 0 <= k < i ==> self.urls@[k]@ != url@,
            decreases self.urls@.len() - i,
        {
            if self.urls[i] == *url {
                return Some(i);
            }
            i = i + 1;
        }
        None
    }

    /// Position of `code` in the code index.
    fn find_code(&self, code: &String) -> (r: Option<usize>)
        requires
            self.wf(),
        ensures
            r is Some ==> r->Some_0 < self.codes@.len() && self.codes@[r->Some_0 as int]@
                == code@,
            r is Some <==> code_in_use(self@, code@),
    {
        let mut i: usize = 0;
        while i < self.codes.len()
            invariant
                self.wf(),
                i <= self.codes@.len(),
                forall|k: int| 0 <= k < i ==> self.codes@[k]@ != code@,
            decreases self.codes@.len() - i,
        {
            if self.codes[i] == *code {
                assert(resolves_to(self@, code@, self.urls@[i as int]@));
                return Some(i);
            }
            i = i + 1;
        }
        proof {
            if code_in_use(self@, code@) {
                let u = choose|u: Seq<char>| #[trigger] resolves_to(self@, code@, u);
                let k = choose|k: int| 0 <= k < self.urls@.len() && #[trigger] self.urls@[k]@ == u;
                assert(self.codes@[k]@ == code@);
            }
        }
        None
    }

    /// Files `url` under `code` unless the URL is known already, in which case
    /// its own code stands. Returns the short URL of the code that `url` ends
    /// up with, or `None`, leaving the registry as it was, when `code` already
    /// belongs to another URL.
    pub fn get_or_create_with(&mut self, url: &str, code: &str) -> (r: Option<String>)
        requires
            old(self).wf(),
            is_code(code@),
        ensures
            final(self).wf(),
            codes_well_formed(final(self)@),
            old(self)@.contains_key(url@) ==> r is Some,
            !old(self)@.contains_key(url@) && !code_in_use(old(self)@, code@) ==> r is Some,
            r is Some ==> get_or_create_step(old(self)@, url@, final(self)@, final(self)@[url@])
                && r->Some_0@ == short_url_of(final(self)@[url@]),
            r is Some && !old(self)@.contains_key(url@) ==> final(self)@[url@] == code@,
            r is None ==> final(self)@ == old(self)@,
    {
        proof {
            old(self).lemma_wf_injective();
        }
        let url_s = String::from_str(url);
        match self.find_url(&url_s) {
            Some(i) => {
                proof {
                    self.lemma_wf_injective();
                }
                return Some(short_url(self.codes[i].as_str()));
            },
            None => {},
        }
        let code_s = String::from_str(code);
        match self.find_code(&code_s) {
            Some(_) => {
                proof {
                    self.lemma_wf_injective();
                }
                return None;
            },
            None => {},
        }
        let ghost pre = *self;
        let r = short_url(code);
        self.urls.push(url_s);
        self.codes.push(code_s);
        self.mapping = Ghost(self.mapping@.insert(url@, code@));
        proof {
            let n = pre.urls@.len() as int;
            assert(self.urls@[n]@ == url@);
            assert forall|u: Seq<char>| #[trigger] self.mapping@.contains_key(u) implies exists|
                i: int,
            | 0 <= i < self.urls@.len() && #[trigger] self.urls@[i]@ == u by {
                if u != url@ {
                    let k = choose|k: int| 0 <= k < pre.urls@.len() && #[trigger] pre.urls@[k]@ == u;
                    assert(self.urls@[k]@ == u);
                }
            }
            assert forall|i: int| 0 <= i < self.codes@.len() && i != n implies #[trigger] self.codes@[i]@ != code@ by {
                if self.codes@[i]@ == code@ {
                    assert(resolves_to(pre@, code@, pre.urls@[i]@));
                }
            }
        }
        proof {
            self.lemma_wf_injective();
        }
        Some(r)
    }

    /// Returns the short URL of `url`, filing it under a freshly drawn code
    /// when it is not known yet. The check and the insertion form a single
    /// step on the exclusively borrowed registry. A drawn code that already
    /// belongs to another URL is drawn again, up to `MAX_DRAWS` times; `None`
    /// means every draw collided, and the registry is left as it was.
    pub fn get_or_create(&mut self, url: &str) -> (r: Option<String>)
        requires
            old(self).wf(),
        ensures
            final(self).wf(),
            codes_well_formed(final(self)@),
            old(self)@.contains_key(url@) ==> r is Some,
            old(self)@ == Map::<Seq<char>, Seq<char>>::empty() ==> r is Some,
            r is Some ==> get_or_create_step(old(self)@, url@, final(self)@, final(self)@[url@])
                && r->Some_0@ == short_url_of(final(self)@[url@]),
            r is None ==> final(self)@ == old(self)@ && !old(self)@.contains_key(url@),
    {
        let mut draws: usize = 0;
        while draws < MAX_DRAWS
            invariant
                self.wf(),
                self@ == old(self)@,
                draws > 0 ==> !old(self)@.contains_key(url@),
                draws > 0 ==> old(self)@ != Map::<Seq<char>, Seq<char>>::empty(),
            decreases MAX_DRAWS - draws,
        {
            let code = generate_code();
            proof {
                if self@ == Map::<Seq<char>, Seq<char>>::empty() {
                    assert(!code_in_use(self@, code@));
                }
            }
            match self.get_or_create_with(url, code.as_str()) {
                Some(s) => {
                    return Some(s);
                },
                None => {},
            }
            draws = draws + 1;
        }
        proof {
            self.lemma_wf_injective();
        }
        None
    }

    /// The URL filed under `code`, if any. Since no code is filed under two
    /// URLs, the answer is unique.
    pub fn resolve(&self, code: &str) -> (r: Option<String>)
        requires
            self.wf(),
        ensures
            r is Some <==> code_in_use(self@, code@),
            r is Some ==> resolves_to(self@, code@, r->Some_0@),
    {
        let code_s = String::from_str(code);
        match self.find_code(&code_s) {
            Some(i) => Some(self.urls[i].clone()),
            None => None,
        }
    }

    /// A copy of every pair, as (URL, short URL), each URL once.
    pub fn snapshot(&self) -> (r: Vec<(String, String)>)
        requires
            self.wf(),
        ensures
            codes_well_formed(self@),
            forall|i: int|
                0 <= i < r@.len() ==> self@.contains_key((#[trigger] r@[i]).0@) && r@[i].1@
                    == short_url_of(self@[r@[i].0@]),
            forall|u: Seq<char>|
                #[trigger] self@.contains_key(u) ==> exists|i: int|
                    0 <= i < r@.len() && #[trigger] r@[i].0@ == u,
            forall|i: int, j: int|
                0 <= i < r@.len() && 0 <= j < r@.len() && i != j ==> #[trigger] r@[i].0@
                    != #[trigger] r@[j].0@,
    {
        let mut out: Vec<(String, String)> = Vec::new();
        let mut i: usize = 0;
        while i < self.urls.len()
            invariant
                self.wf(),
                i <= self.urls@.len(),
                out@.len() == i,
                forall|k: int|
                    0 <= k < i ==> #[trigger] out@[k].0@ == self.urls@[k]@ && out@[k].1@
                        == short_url_of(self.codes@[k]@),
            decreases self.urls@.len() - i,
        {
            let u = self.urls[i].clone();
            let s = short_url(self.codes[i].as_str());
            let ghost prev = out@;
            out.push((u, s));
            proof {
                assert forall|k: int| 0 <= k < i + 1 implies #[trigger] out@[k].0@ == self.urls@[k]@
                    && out@[k].1@ == short_url_of(self.codes@[k]@) by {
                    if k < i {
                        assert(out@[k] == prev[k]);
                    }
                }
            }
            i = i + 1;
        }
        proof {
            assert forall|u: Seq<char>| #[trigger] self@.contains_key(u) implies exists|k: int|
                0 <= k < out@.len() && #[trigger] out@[k].0@ == u by {
                let k = choose|k: int| 0 <= k < self.urls@.len() && #[trigger] self.urls@[k]@ == u;
                assert(out@[k].0@ == u);
            }
            assert forall|k: int| 0 <= k < out@.len() implies #[trigger] self@.contains_key(
                out@[k].0@,
            ) && out@[k].1@ == short_url_of(self@[out@[k].0@]) by {
                assert(self.urls@[k]@ == out@[k].0@);
            }
            assert forall|a: int, b: int|
                0 <= a < out@.len() && 0 <= b < out@.len() && a != b implies #[trigger] out@[a].0@
                != #[trigger] out@[b].0@ by {
                assert(self.urls@[a]@ == out@[a].0@);
                assert(self.urls@[b]@ == out@[b].0@);
            }
            self.lemma_wf_injective();
        }
        out
    }
}

/// A step keeps every earlier pair, files `url` under `code`, and keeps the
/// registry free of shared codes.
pub proof fn lemma_step_extends(
    pre: Map<Seq<char>, Seq<char>>,
    url: Seq<char>,
    post: Map<Seq<char>, Seq<char>>,
    code: Seq<char>,
)
    requires
        injective(pre),
        get_or_create_step(pre, url, post, code),
    ensures
        injective(post),
        resolves_to(post, code, url),
        forall|u: Seq<char>| #[trigger] pre.contains_key(u) ==> post.contains_key(u) && post[u] == pre[u],
{
    if !pre.contains_key(url) {
        assert forall|u1: Seq<char>, u2: Seq<char>|
            #[trigger] post.contains_key(u1) && #[trigger] post.contains_key(u2) && post[u1]
                == post[u2] implies u1 == u2 by {
            if u1 != url && u2 == url {
                assert(resolves_to(pre, code, u1));
            }
            if u1 == url && u2 != url {
                assert(resolves_to(pre, code, u2));
            }
        }
    }
}

/// Asking twice for the same URL hands out the same code both times, and the
/// second request changes nothing.
pub proof fn lemma_get_or_create_idempotent(
    m0: Map<Seq<char>, Seq<char>>,
    url: Seq<char>,
    m1: Map<Seq<char>, Seq<char>>,
    c1: Seq<char>,
    m2: Map<Seq<char>, Seq<char>>,
    c2: Seq<char>,
)
    requires
        get_or_create_step(m0, url, m1, c1),
        get_or_create_step(m1, url, m2, c2),
    ensures
        c2 == c1,
        m2 == m1,
{
    assert(m1.contains_key(url));
}

/// Two different URLs, asked for one after the other, get different codes.
pub proof fn lemma_distinct_urls_distinct_codes(
    m0: Map<Seq<char>, Seq<char>>,
    u1: Seq<char>,
    m1: Map<Seq<char>, Seq<char>>,
    c1: Seq<char>,
    u2: Seq<char>,
    m2: Map<Seq<char>, Seq<char>>,
    c2: Seq<char>,
)
    requires
        injective(m0),
        get_or_create_step(m0, u1, m1, c1),
        get_or_create_step(m1, u2, m2, c2),
        u1 != u2,
    ensures
        c1 != c2,
{
    lemma_step_extends(m0, u1, m1, c1);
    lemma_step_extends(m1, u2, m2, c2);
    assert(m2.contains_key(u1) && m2[u1] == c1);
}

/// The code handed out for a URL resolves to that URL and to no other.
pub proof fn lemma_round_trip(
    m0: Map<Seq<char>, Seq<char>>,
    url: Seq<char>,
    m1: Map<Seq<char>, Seq<char>>,
    code: Seq<char>,
)
    requires
        injective(m0),
        get_or_create_step(m0, url, m1, code),
    ensures
        code_in_use(m1, code),
        forall|v: Seq<char>| #[trigger] resolves_to(m1, code, v) ==> v == url,
{
    lemma_step_extends(m0, url, m1, code);
}

/// A step puts no code in use but the one it hands out: a code that nobody
/// held before and that the step did not hand out still resolves to nothing.
/// An empty registry holds no code at all.
pub proof fn lemma_unissued_code_not_found(
    m0: Map<Seq<char>, Seq<char>>,
    url: Seq<char>,
    m1: Map<Seq<char>, Seq<char>>,
    code: Seq<char>,
    other: Seq<char>,
)
    requires
        get_or_create_step(m0, url, m1, code),
        !code_in_use(m0, other),
        other != code,
    ensures
        !code_in_use(m1, other),
        !code_in_use(Map::<Seq<char>, Seq<char>>::empty(), other),
{
    if code_in_use(m1, other) {
        let v = choose|v: Seq<char>| #[trigger] resolves_to(m1, other, v);
        assert(resolves_to(m0, other, v));
    }
}

/// Any run of get-or-create steps, on any URLs, keeps every earlier pair and
/// keeps codes unshared.
pub proof fn lemma_steps_keep_pairs(
    maps: Seq<Map<Seq<char>, Seq<char>>>,
    urls: Seq<Seq<char>>,
    codes: Seq<Seq<char>>,
)
    requires
        maps.len() == urls.len() + 1,
        codes.len() == urls.len(),
        injective(maps[0]),
        forall|i: int|
            0 <= i < urls.len() ==> get_or_create_step(maps[i], #[trigger] urls[i], maps[i + 1], codes[i]),
    ensures
        injective(maps.last()),
        forall|u: Seq<char>| #[trigger] maps[0].contains_key(u) ==> maps.last().contains_key(u)
            && maps.last()[u] == maps[0][u],
    decreases urls.len(),
{
    if urls.len() > 0 {
        let n = urls.len() as int;
        let ms = maps.drop_last();
        let us = urls.drop_last();
        let cs = codes.drop_last();
        assert forall|i: int| 0 <= i < us.len() implies get_or_create_step(ms[i], #[trigger] us[i], ms[i + 1], cs[i]) by {
            assert(get_or_create_step(maps[i], urls[i], maps[i + 1], codes[i]));
        }
        lemma_steps_keep_pairs(ms, us, cs);
        assert(get_or_create_step(maps[n - 1], urls[n - 1], maps[n], codes[n - 1]));
        assert(ms.last() == maps[n - 1]);
        lemma_step_extends(maps[n - 1], urls[n - 1], maps[n], codes[n - 1]);
    }
}

/// Once a URL has been handed a code, any later requests, for any URLs,
/// leave that URL filed under the same code, that code resolves to that URL
/// alone, and a later request for the same URL hands out the same code and
/// changes nothing.
pub proof fn lemma_code_kept_across_requests(
    maps: Seq<Map<Seq<char>, Seq<char>>>,
    urls: Seq<Seq<char>>,
    codes: Seq<Seq<char>>,
    url: Seq<char>,
    code: Seq<char>,
    last: Map<Seq<char>, Seq<char>>,
    again: Seq<char>,
)
    requires
        maps.len() == urls.len() + 1,
        codes.len() == urls.len(),
        injective(maps[0]),
        resolves_to(maps[0], code, url),
        forall|i: int|
            0 <= i < urls.len() ==> get_or_create_step(maps[i], #[trigger] urls[i], maps[i + 1], codes[i]),
        get_or_create_step(maps.last(), url, last, again),
    ensures
        resolves_to(maps.last(), code, url),
        forall|v: Seq<char>| #[trigger] resolves_to(maps.last(), code, v) ==> v == url,
        again == code,
        last == maps.last(),
{
    lemma_steps_keep_pairs(maps, urls, codes);
    assert(maps[0].contains_key(url));
}

/// Any number of requests for one URL, applied one after the other (the
/// registry is borrowed exclusively for each), leave exactly one entry for it
/// and all return the same code; after the first, none changes anything.
pub proof fn lemma_repeated_get_or_create(
    maps: Seq<Map<Seq<char>, Seq<char>>>,
    url: Seq<char>,
    codes: Seq<Seq<char>>,
)
    requires
        codes.len() > 0,
        maps.len() == codes.len() + 1,
        forall|i: int|
            0 <= i < codes.len() ==> get_or_create_step(maps[i], url, maps[i + 1], #[trigger] codes[i]),
    ensures
        forall|i: int| 0 <= i < codes.len() ==> #[trigger] codes[i] == codes[0],
        maps.last() == maps[1],
        maps.last().contains_key(url),
        maps.last()[url] == codes[0],
        maps.last().dom() == maps[0].dom().insert(url),
    decreases codes.len(),
{
    let n = codes.len() as int;
    assert(get_or_create_step(maps[0], url, maps[1], codes[0]));
    if n > 1 {
        let ms = maps.drop_last();
        let cs = codes.drop_last();
        assert forall|i: int| 0 <= i < cs.len() implies get_or_create_step(ms[i], url, ms[i + 1], #[trigger] cs[i]) by {
            assert(get_or_create_step(maps[i], url, maps[i + 1], codes[i]));
        }
        lemma_repeated_get_or_create(ms, url, cs);
        assert(get_or_create_step(maps[n - 1], url, maps[n], codes[n - 1]));
        assert(ms.last() == maps[n - 1]);
        lemma_get_or_create_idempotent(maps[n - 2], url, maps[n - 1], codes[n - 2], maps[n], codes[n - 1]);
        assert forall|i: int| 0 <= i < codes.len() implies #[trigger] codes[i] == codes[0] by {
            if i < n - 1 {
                assert(cs[i] == codes[i]);
            }
        }
    }
    assert(maps.last().dom() =~= maps[0].dom().insert(url));
}

/// How many codes `get_or_create` draws before it gives up.
pub const MAX_DRAWS: usize = 16;

} // verus!
