//! Mint discovery (NIP-87): mints announce themselves (kind 38172) and
//! users recommend them (kind 38000); the wallet merges both into one
//! entry per mint URL, most recommended first.
use vstd::prelude::*;
use vstd::string::*;
use crate::keyset::string_views;
use crate::nutzap::{tag_kind, tag_views};
use crate::sorting::{lemma_insert_pos_by, sort_desc_by};
use crate::text::{chars_of, has_prefix, starts_with};

verus! {

/// A recommendation of a mint: who made it, and its text.
#[derive(Debug, Clone)]
pub struct MintRecommendation {
    pub recommender: String,
    pub content: String,
}

/// A mint found through announcements and recommendations.
#[derive(Debug, Clone)]
pub struct DiscoveredMint {
    pub url: String,
    pub name: Option<String>,
    pub description: Option<String>,
    /// The NUTs the announcement lists.
    pub nuts: Option<String>,
    pub network: Option<String>,
    /// The mint's public key, from the announcement's `d` tag.
    pub mint_pubkey: Option<String>,
    /// Who announced the mint (empty for a mint only recommended).
    pub author_pubkey: String,
    pub recommendation_count: usize,
    /// Each recommender once, in the order first seen.
    pub recommenders: Vec<String>,
    pub recommendations: Vec<MintRecommendation>,
}

/// A mint announcement event (kind 38172): its tags, its author, and the
/// name and description that its JSON content gives.
#[derive(Debug, Clone)]
pub struct MintAnnouncement {
    pub tags: Vec<Vec<String>>,
    pub author_pubkey: String,
    pub name: Option<String>,
    pub description: Option<String>,
}

/// A recommendation event (kind 38000): its tags, its author and its text.
#[derive(Debug, Clone)]
pub struct RecommendationEvent {
    pub tags: Vec<Vec<String>>,
    pub author_pubkey: String,
    pub content: String,
}

/// What is known of a discovered mint.
pub ghost struct MintView {
    pub url: Seq<char>,
    pub name: Option<Seq<char>>,
    pub description: Option<Seq<char>>,
    pub nuts: Option<Seq<char>>,
    pub network: Option<Seq<char>>,
    pub mint_pubkey: Option<Seq<char>>,
    pub author_pubkey: Seq<char>,
    pub recommenders: Seq<Seq<char>>,
    pub recommendations: Seq<(Seq<char>, Seq<char>)>,
}

/// The view of an optional string.
pub open spec fn opt_view(o: Option<String>) -> Option<Seq<char>> {
    match o {
        Some(s) => Some(s@),
        None => None,
    }
}

/// The recommenders and texts of a list of recommendations.
pub open spec fn recommendation_views(v: Seq<MintRecommendation>) -> Seq<(Seq<char>, Seq<char>)> {
    v.map_values(|r: MintRecommendation| (r.recommender@, r.content@))
}

/// What a discovered mint holds.
pub open spec fn mint_view(m: DiscoveredMint) -> MintView {
    MintView {
        url: m.url@,
        name: opt_view(m.name),
        description: opt_view(m.description),
        nuts: opt_view(m.nuts),
        network: opt_view(m.network),
        mint_pubkey: opt_view(m.mint_pubkey),
        author_pubkey: m.author_pubkey@,
        recommenders: string_views(m.recommenders@),
        recommendations: recommendation_views(m.recommendations@),
    }
}

/// The views of a list of discovered mints.
pub open spec fn mint_views(v: Seq<DiscoveredMint>) -> Seq<MintView> {
    v.map_values(|m: DiscoveredMint| mint_view(m))
}

/// Each count is the number of recommenders.
pub open spec fn counts_match(v: Seq<DiscoveredMint>) -> bool {
    forall|i: int| 0 <= i < v.len() ==> #[trigger] v[i].recommendation_count == v[i].recommenders@.len()
}

/// The content of the first tag named `name` that has content.
pub open spec fn first_content(ts: Seq<Seq<Seq<char>>>, name: Seq<char>) -> Option<Seq<char>>
    decreases ts.len(),
{
    if ts.len() == 0 {
        None
    } else if tag_kind(ts[0]) == name && ts[0].len() > 1 {
        Some(ts[0][1])
    } else {
        first_content(ts.subrange(1, ts.len() as int), name)
    }
}

/// The content of the first tag named `name` that has content.
fn find_first_content(tags: &Vec<Vec<String>>, name: &str) -> (r: Option<String>)
    ensures
        opt_view(r) == first_content(tag_views(tags@), name@),
{
    let ghost tv = tag_views(tags@);
    let n = String::from_str(name);
    let mut i: usize = 0;
    assert(tv.subrange(0, tv.len() as int) =~= tv);
    while i < tags.len()
        invariant
            tv == tag_views(tags@),
            n@ == name@,
            i <= tags@.len(),
            first_content(tv, name@) == first_content(tv.subrange(i as int, tv.len() as int), name@),
        decreases tags@.len() - i,
    {
        let ghost rest = tv.subrange(i as int, tv.len() as int);
        assert(rest[0] == string_views(tags@[i as int]@));
        assert(rest.subrange(1, rest.len() as int) =~= tv.subrange(i + 1, tv.len() as int));
        if tags[i].len() > 1 && tags[i][0] == n {
            return Some(tags[i][1].clone());
        }
        i = i + 1;
    }
    None
}

/// The position of a mint URL in a list, searching from the end.
pub open spec fn url_index(ms: Seq<MintView>, url: Seq<char>) -> Option<int>
    decreases ms.len(),
{
    if ms.len() == 0 {
        None
    } else if ms.last().url == url {
        Some(ms.len() - 1)
    } else {
        url_index(ms.drop_last(), url)
    }
}

/// No URL occurs twice.
pub open spec fn distinct_urls(ms: Seq<MintView>) -> bool {
    forall|i: int, j: int| 0 <= i < ms.len() && 0 <= j < ms.len() && i != j ==> ms[i].url != ms[j].url
}

/// `url_index` finds a mint with the URL, or there is none.
pub proof fn lemma_url_index(ms: Seq<MintView>, url: Seq<char>)
    ensures
        match url_index(ms, url) {
            Some(i) => 0 <= i < ms.len() && ms[i].url == url,
            None => forall|j: int| 0 <= j < ms.len() ==> ms[j].url != url,
        },
    decreases ms.len(),
{
    if ms.len() > 0 && ms.last().url != url {
        let q = ms.drop_last();
        lemma_url_index(q, url);
        assert forall|j: int| 0 <= j < q.len() implies #[trigger] ms[j] == q[j] by {}
    }
}

/// A mint with its URL put into the list: replacing the entry of that URL,
/// or added at the end.
pub open spec fn put_mint(ms: Seq<MintView>, v: MintView) -> Seq<MintView> {
    match url_index(ms, v.url) {
        Some(i) => ms.update(i, v),
        None => ms.push(v),
    }
}

/// What an announcement says of its mint, if it names one (`u` tag): the
/// mint public key (`d`), NUTs (`nuts`) and network (`n`) from its tags.
pub open spec fn announced_view(a: MintAnnouncement) -> Option<MintView> {
    let tv = tag_views(a.tags@);
    match first_content(tv, "u"@) {
        None => None,
        Some(url) => Some(
            MintView {
                url,
                name: opt_view(a.name),
                description: opt_view(a.description),
                nuts: first_content(tv, "nuts"@),
                network: first_content(tv, "n"@),
                mint_pubkey: first_content(tv, "d"@),
                author_pubkey: a.author_pubkey@,
                recommenders: Seq::empty(),
                recommendations: Seq::empty(),
            },
        ),
    }
}

/// The mints of a list of announcements, a later announcement of a URL
/// replacing an earlier one.
pub open spec fn announced(anns: Seq<MintAnnouncement>) -> Seq<MintView>
    decreases anns.len(),
{
    if anns.len() == 0 {
        Seq::empty()
    } else {
        let ms = announced(anns.drop_last());
        match announced_view(anns.last()) {
            Some(v) => put_mint(ms, v),
            None => ms,
        }
    }
}

/// A recommendation of `url` by `author` added: counted once per
/// recommender; a URL not yet known becomes a mint on the main network.
pub open spec fn recommend(ms: Seq<MintView>, url: Seq<char>, author: Seq<char>, content: Seq<char>) -> Seq<MintView> {
    match url_index(ms, url) {
        Some(i) => if ms[i].recommenders.contains(author) {
            ms
        } else {
            ms.update(
                i,
                MintView {
                    recommenders: ms[i].recommenders.push(author),
                    recommendations: ms[i].recommendations.push((author, content)),
                    ..ms[i]
                },
            )
        },
        None => ms.push(
            MintView {
                url,
                name: None,
                description: None,
                nuts: None,
                network: Some("mainnet"@),
                mint_pubkey: None,
                author_pubkey: Seq::empty(),
                recommenders: seq![author],
                recommendations: seq![(author, content)],
            },
        ),
    }
}

/// A tag recommends a Cashu mint: a `u` tag whose URL starts with `http`
/// and whose third text, if any, is `cashu`.
pub open spec fn recommends_cashu(t: Seq<Seq<char>>) -> bool {
    &&& tag_kind(t) == "u"@
    &&& t.len() > 1
    &&& t.len() > 2 ==> t[2] == "cashu"@
    &&& has_prefix(t[1], "http"@)
}

/// The recommendations of one event's tags added, tag by tag.
pub open spec fn event_recommended(ms: Seq<MintView>, ts: Seq<Seq<Seq<char>>>, author: Seq<char>, content: Seq<char>) -> Seq<
    MintView,
>
    decreases ts.len(),
{
    if ts.len() == 0 {
        ms
    } else {
        let m = event_recommended(ms, ts.drop_last(), author, content);
        if recommends_cashu(ts.last()) { recommend(m, ts.last()[1], author, content) } else { m }
    }
}

/// The recommendations of a list of events added, event by event.
pub open spec fn all_recommended(ms: Seq<MintView>, recs: Seq<RecommendationEvent>) -> Seq<MintView>
    decreases recs.len(),
{
    if recs.len() == 0 {
        ms
    } else {
        let e = recs.last();
        event_recommended(all_recommended(ms, recs.drop_last()), tag_views(e.tags@), e.author_pubkey@, e.content@)
    }
}

/// Order key: more recommenders first.
pub open spec fn by_recommendations() -> spec_fn(MintView) -> int {
    |v: MintView| v.recommenders.len() as int
}

/// The discovered mints: announcements first, then recommendations, one
/// entry per URL, most recommended first (ties in the order first seen).
pub open spec fn discovered(anns: Seq<MintAnnouncement>, recs: Seq<RecommendationEvent>) -> Seq<MintView> {
    sort_desc_by(all_recommended(announced(anns), recs), by_recommendations())
}


/// Putting a mint keeps the URLs distinct.
pub proof fn lemma_put_distinct(ms: Seq<MintView>, v: MintView)
    requires
        distinct_urls(ms),
    ensures
        distinct_urls(put_mint(ms, v)),
{
    lemma_url_index(ms, v.url);
    let r = put_mint(ms, v);
    assert forall|i: int, j: int| 0 <= i < r.len() && 0 <= j < r.len() && i != j implies r[i].url != r[j].url by {
        match url_index(ms, v.url) {
            Some(k) => {
                assert(r[i].url == ms[i].url && r[j].url == ms[j].url);
            },
            None => {
                if i < ms.len() && j < ms.len() {
                    assert(r[i] == ms[i] && r[j] == ms[j]);
                } else if i < ms.len() {
                    assert(r[i] == ms[i]);
                } else {
                    assert(r[j] == ms[j]);
                }
            },
        }
    }
}

/// Adding a recommendation keeps the URLs distinct.
pub proof fn lemma_recommend_distinct(ms: Seq<MintView>, url: Seq<char>, author: Seq<char>, content: Seq<char>)
    requires
        distinct_urls(ms),
    ensures
        distinct_urls(recommend(ms, url, author, content)),
{
    lemma_url_index(ms, url);
    let r = recommend(ms, url, author, content);
    assert forall|i: int, j: int| 0 <= i < r.len() && 0 <= j < r.len() && i != j implies r[i].url != r[j].url by {
        match url_index(ms, url) {
            Some(k) => {
                assert(r[i].url == ms[i].url && r[j].url == ms[j].url);
            },
            None => {
                if i < ms.len() && j < ms.len() {
                    assert(r[i] == ms[i] && r[j] == ms[j]);
                } else if i < ms.len() {
                    assert(r[i] == ms[i]);
                } else {
                    assert(r[j] == ms[j]);
                }
            },
        }
    }
}

/// Position of the mint with a URL, in a list with distinct URLs.
fn find_mint(ms: &Vec<DiscoveredMint>, url: &str) -> (r: Option<usize>)
    requires
        distinct_urls(mint_views(ms@)),
    ensures
        r matches Some(i) ==> i < ms@.len() && url_index(mint_views(ms@), url@) == Some(i as int),
        r is None ==> url_index(mint_views(ms@), url@) is None,
{
    let u = String::from_str(url);
    let mut i: usize = 0;
    while i < ms.len()
        invariant
            distinct_urls(mint_views(ms@)),
            u@ == url@,
            i <= ms@.len(),
            forall|j: int| 0 <= j < i ==> mint_views(ms@)[j].url != url@,
        decreases ms@.len() - i,
    {
        if ms[i].url == u {
            proof {
                assert(mint_views(ms@)[i as int].url == url@);
                lemma_url_index(mint_views(ms@), url@);
                if let Some(k) = url_index(mint_views(ms@), url@) {
                    if k != i {
                        assert(mint_views(ms@)[k].url == mint_views(ms@)[i as int].url);
                    }
                }
            }
            return Some(i);
        }
        i = i + 1;
    }
    proof {
        lemma_url_index(mint_views(ms@), url@);
    }
    None
}

/// Replaces the entry at a position.
fn replace_at(ms: &mut Vec<DiscoveredMint>, i: usize, m: DiscoveredMint)
    requires
        i < old(ms)@.len(),
    ensures
        final(ms)@ == old(ms)@.update(i as int, m),
{
    ms.remove(i);
    ms.insert(i, m);
    assert(final(ms)@ =~= old(ms)@.update(i as int, m));
}

/// Puts the mint of an announcement into the list.
fn put_announcement(ms: &mut Vec<DiscoveredMint>, a: &MintAnnouncement)
    requires
        distinct_urls(mint_views(old(ms)@)),
        counts_match(old(ms)@),
    ensures
        distinct_urls(mint_views(final(ms)@)),
        counts_match(final(ms)@),
        mint_views(final(ms)@) == match announced_view(*a) {
            Some(v) => put_mint(mint_views(old(ms)@), v),
            None => mint_views(old(ms)@),
        },
{
    let url = match find_first_content(&a.tags, "u") {
        None => {
            return;
        },
        Some(u) => u,
    };
    let m = DiscoveredMint {
        url: url.clone(),
        name: a.name.clone(),
        description: a.description.clone(),
        nuts: find_first_content(&a.tags, "nuts"),
        network: find_first_content(&a.tags, "n"),
        mint_pubkey: find_first_content(&a.tags, "d"),
        author_pubkey: a.author_pubkey.clone(),
        recommendation_count: 0,
        recommenders: Vec::new(),
        recommendations: Vec::new(),
    };
    let ghost v = announced_view(*a)->0;
    assert(mint_view(m) =~= v) by {
        assert(string_views(m.recommenders@) =~= Seq::<Seq<char>>::empty());
        assert(recommendation_views(m.recommendations@) =~= Seq::<(Seq<char>, Seq<char>)>::empty());
    }
    let ghost before = mint_views(ms@);
    match find_mint(ms, url.as_str()) {
        Some(i) => {
            replace_at(ms, i, m);
            assert(mint_views(ms@) =~= before.update(i as int, v));
        },
        None => {
            ms.push(m);
            assert(mint_views(ms@) =~= before.push(v));
        },
    }
    proof {
        lemma_put_distinct(before, v);
    }
}

/// Whether a list of strings holds a string.
fn holds_string(v: &Vec<String>, s: &String) -> (r: bool)
    ensures
        r == string_views(v@).contains(s@),
{
    let mut i: usize = 0;
    while i < v.len()
        invariant
            i <= v@.len(),
            forall|j: int| 0 <= j < i ==> string_views(v@)[j] != s@,
        decreases v@.len() - i,
    {
        if v[i] == *s {
            assert(string_views(v@)[i as int] == s@);
            return true;
        }
        i = i + 1;
    }
    proof {
        if string_views(v@).contains(s@) {
            let w = choose|w: int| 0 <= w < string_views(v@).len() && string_views(v@)[w] == s@;
            assert(string_views(v@)[w] != s@);
        }
    }
    false
}

/// Adds one recommendation of a URL.
fn add_recommendation(ms: &mut Vec<DiscoveredMint>, url: &str, author: &String, content: &String)
    requires
        distinct_urls(mint_views(old(ms)@)),
        counts_match(old(ms)@),
    ensures
        distinct_urls(mint_views(final(ms)@)),
        counts_match(final(ms)@),
        mint_views(final(ms)@) == recommend(mint_views(old(ms)@), url@, author@, content@),
{
    let ghost before = mint_views(ms@);
    proof {
        lemma_recommend_distinct(before, url@, author@, content@);
    }
    match find_mint(ms, url) {
        Some(i) => {
            if holds_string(&ms[i].recommenders, author) {
                return;
            }
            let mut m = ms.remove(i);
            let ghost old_m = m;
            m.recommenders.push(author.clone());
            m.recommendation_count = m.recommenders.len();
            m.recommendations.push(MintRecommendation { recommender: author.clone(), content: content.clone() });
            ms.insert(i, m);
            proof {
                let nv = MintView {
                    recommenders: before[i as int].recommenders.push(author@),
                    recommendations: before[i as int].recommendations.push((author@, content@)),
                    ..before[i as int]
                };
                assert(string_views(m.recommenders@) =~= string_views(old_m.recommenders@).push(author@));
                assert(recommendation_views(m.recommendations@) =~= recommendation_views(old_m.recommendations@).push(
                    (author@, content@),
                ));
                assert(mint_view(m) =~= nv);
                assert(mint_views(ms@) =~= before.update(i as int, nv));
                assert forall|k: int| 0 <= k < ms@.len() implies #[trigger] ms@[k].recommendation_count
                    == ms@[k].recommenders@.len() by {
                    if k != i {
                        assert(ms@[k] == old(ms)@[k]);
                    }
                }
            }
        },
        None => {
            let mut recs: Vec<String> = Vec::new();
            recs.push(author.clone());
            let mut rs: Vec<MintRecommendation> = Vec::new();
            rs.push(MintRecommendation { recommender: author.clone(), content: content.clone() });
            let m = DiscoveredMint {
                url: String::from_str(url),
                name: None,
                description: None,
                nuts: None,
                network: Some(String::from_str("mainnet")),
                mint_pubkey: None,
                author_pubkey: String::new(),
                recommendation_count: 1,
                recommenders: recs,
                recommendations: rs,
            };
            ms.push(m);
            proof {
                assert(string_views(m.recommenders@) =~= seq![author@]);
                assert(recommendation_views(m.recommendations@) =~= seq![(author@, content@)]);
                assert(m.author_pubkey@ =~= Seq::<char>::empty());
                assert(mint_views(ms@) =~= before.push(mint_view(m)));
                assert forall|k: int| 0 <= k < ms@.len() implies #[trigger] ms@[k].recommendation_count
                    == ms@[k].recommenders@.len() by {
                    if k < old(ms)@.len() {
                        assert(ms@[k] == old(ms)@[k]);
                    }
                }
            }
        },
    }
}

/// Whether a tag recommends a Cashu mint.
fn is_cashu_recommendation(t: &Vec<String>) -> (r: bool)
    ensures
        r == recommends_cashu(string_views(t@)),
{
    if t.len() < 2 {
        return false;
    }
    let u = String::from_str("u");
    if t[0] != u {
        return false;
    }
    if t.len() > 2 {
        let c = String::from_str("cashu");
        if t[2] != c {
            return false;
        }
    }
    let cs = chars_of(t[1].as_str());
    let p = chars_of("http");
    starts_with(&cs, &p)
}

/// Adds the recommendations of one event.
fn add_event_recommendations(ms: &mut Vec<DiscoveredMint>, e: &RecommendationEvent)
    requires
        distinct_urls(mint_views(old(ms)@)),
        counts_match(old(ms)@),
    ensures
        distinct_urls(mint_views(final(ms)@)),
        counts_match(final(ms)@),
        mint_views(final(ms)@) == event_recommended(
            mint_views(old(ms)@),
            tag_views(e.tags@),
            e.author_pubkey@,
            e.content@,
        ),
{
    let ghost tv = tag_views(e.tags@);
    let ghost start = mint_views(ms@);
    for i in 0..e.tags.len()
        invariant
            tv == tag_views(e.tags@),
            start == mint_views(old(ms)@),
            distinct_urls(mint_views(ms@)),
            counts_match(ms@),
            mint_views(ms@) == event_recommended(start, tv.take(i as int), e.author_pubkey@, e.content@),
    {
        assert(tv.take(i + 1).drop_last() =~= tv.take(i as int));
        assert(tv.take(i + 1).last() == string_views(e.tags@[i as int]@));
        if is_cashu_recommendation(&e.tags[i]) {
            add_recommendation(ms, e.tags[i][1].as_str(), &e.author_pubkey, &e.content);
        }
    }
    assert(tv.take(e.tags@.len() as int) =~= tv);
}

/// Order key of discovered mints: more recommenders first.
pub open spec fn mint_count_key() -> spec_fn(MintView) -> int {
    by_recommendations()
}

/// Stable sort of discovered mints, most recommended first.
fn sort_by_recommendations(v: Vec<DiscoveredMint>) -> (r: Vec<DiscoveredMint>)
    requires
        counts_match(v@),
    ensures
        mint_views(r@) == sort_desc_by(mint_views(v@), by_recommendations()),
        counts_match(r@),
{
    let ghost orig = v@;
    assert(orig.len() == v.len());
    let mut rest = v;
    let mut r: Vec<DiscoveredMint> = Vec::new();
    let mut i: usize = 0;
    assert(mint_views(orig.take(0)) =~= Seq::<MintView>::empty());
    while rest.len() > 0
        invariant
            i <= orig.len(),
            orig.len() <= usize::MAX,
            counts_match(orig),
            rest@ == orig.skip(i as int),
            counts_match(r@),
            mint_views(r@) == sort_desc_by(mint_views(orig.take(i as int)), by_recommendations()),
        decreases rest.len(),
    {
        assert(rest@.len() == orig.len() - i);
        let x = rest.remove(0);
        assert(x == orig[i as int]);
        assert(rest@ =~= orig.skip(i + 1));
        assert(x.recommendation_count == x.recommenders@.len());
        let mut j: usize = 0;
        let mut found = false;
        while j < r.len() && !found
            invariant
                j <= r@.len(),
                counts_match(r@),
                forall|k: int| 0 <= k < j ==> r@[k].recommendation_count >= x.recommendation_count,
                found ==> j < r@.len() && r@[j as int].recommendation_count < x.recommendation_count,
            decreases r@.len() - j + (if found { 0int } else { 1int }),
        {
            if r[j].recommendation_count < x.recommendation_count {
                found = true;
            } else {
                j = j + 1;
            }
        }
        proof {
            let rv = mint_views(r@);
            assert forall|k: int| 0 <= k < j implies by_recommendations()(rv[k]) >= by_recommendations()(
                mint_view(x),
            ) by {
                assert(r@[k].recommendation_count == r@[k].recommenders@.len());
            }
            if j < r@.len() {
                assert(r@[j as int].recommendation_count == r@[j as int].recommenders@.len());
            }
            lemma_insert_pos_by(rv, mint_view(x), by_recommendations(), j as int);
            assert(mint_views(orig.take(i + 1)).drop_last() =~= mint_views(orig.take(i as int)));
            assert(mint_views(orig.take(i + 1)).last() == mint_view(x));
        }
        let ghost before = r@;
        r.insert(j, x);
        proof {
            assert(mint_views(r@) =~= mint_views(before).insert(j as int, mint_view(x)));
            assert forall|k: int| 0 <= k < r@.len() implies #[trigger] r@[k].recommendation_count
                == r@[k].recommenders@.len() by {
                if k < j {
                    assert(r@[k] == before[k]);
                } else if k > j {
                    assert(r@[k] == before[k - 1]);
                }
            }
        }
        i = i + 1;
    }
    assert(orig.take(orig.len() as int) =~= orig);
    r
}

/// Merges mint announcements and recommendations into one entry per mint
/// URL, most recommended first.
pub fn merge_discovered_mints(announcements: &Vec<MintAnnouncement>, recommendations: &Vec<RecommendationEvent>) -> (r:
    Vec<DiscoveredMint>)
    ensures
        mint_views(r@) == discovered(announcements@, recommendations@),
        counts_match(r@),
{
    let mut ms: Vec<DiscoveredMint> = Vec::new();
    assert(mint_views(ms@) =~= announced(announcements@.take(0)));
    for i in 0..announcements.len()
        invariant
            distinct_urls(mint_views(ms@)),
            counts_match(ms@),
            mint_views(ms@) == announced(announcements@.take(i as int)),
    {
        assert(announcements@.take(i + 1).drop_last() =~= announcements@.take(i as int));
        put_announcement(&mut ms, &announcements[i]);
    }
    assert(announcements@.take(announcements.len() as int) =~= announcements@);
    let ghost base = mint_views(ms@);
    for i in 0..recommendations.len()
        invariant
            base == announced(announcements@),
            distinct_urls(mint_views(ms@)),
            counts_match(ms@),
            mint_views(ms@) == all_recommended(base, recommendations@.take(i as int)),
    {
        assert(recommendations@.take(i + 1).drop_last() =~= recommendations@.take(i as int));
        add_event_recommendations(&mut ms, &recommendations[i]);
    }
    assert(recommendations@.take(recommendations.len() as int) =~= recommendations@);
    sort_by_recommendations(ms)
}

} // verus!
