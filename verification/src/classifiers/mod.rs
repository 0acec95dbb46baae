//! Tags a request before it is routed, and a response after the provider
//! replied, so routing rules can act on capabilities or policy (say, send
//! `vision` requests to a multimodal model) and refusals can be flagged.
//!
//! Every classifier enabled in config (`[classifiers.<id>]`,
//! `[response_classifiers.<id>]`) runs, in registry order, and the tags
//! they produce are merged without duplicates, first occurrence first.

pub mod keyword;
pub mod refusal;

use vstd::prelude::*;

use crate::canonical::{views, ChatRequest, ChatResponse};
use crate::config::{entry_for, find_entry, Config, EntryConfig};
use crate::json::JsonValue;

use self::keyword::{keyword_tags, request_haystack, KeywordClassifier};
use self::refusal::{refusal_tags, RefusalClassifier};

verus! {

/// A classifier's settings, from `[classifiers.<id>]` (none when it has no
/// entry there).
#[derive(Debug, Clone, Copy)]
pub struct ClassifierContext<'a> {
    pub settings: Option<&'a Vec<(String, JsonValue)>>,
}

impl<'a> ClassifierContext<'a> {
    pub open spec fn entries(self) -> Seq<(String, JsonValue)> {
        match self.settings {
            Some(v) => v@,
            None => Seq::empty(),
        }
    }
}

/// A request classifier: looks at a request before it is routed and names
/// the tags it should carry (none means no opinion).
pub trait Classifier {
    /// The identifier used in `[classifiers.<id>]` config.
    fn id(&self) -> &'static str;

    fn classify(&self, ctx: &ClassifierContext, req: &ChatRequest) -> Vec<String>;
}

/// A response classifier: looks at a provider's reply (and, where useful,
/// the request it answers) and names the tags it should carry (none means
/// no opinion).
pub trait ResponseClassifier {
    /// The identifier used in `[response_classifiers.<id>]` config.
    fn id(&self) -> &'static str;

    fn classify(&self, ctx: &ClassifierContext, req: &ChatRequest, resp: &ChatResponse) -> Vec<String>;
}

/// `acc` followed by each tag of `new` that is not already there.
pub open spec fn merge_tags_spec(acc: Seq<Seq<char>>, new: Seq<Seq<char>>) -> Seq<Seq<char>>
    decreases new.len(),
{
    if new.len() == 0 {
        acc
    } else {
        let m = merge_tags_spec(acc, new.drop_last());
        if m.contains(new.last()) {
            m
        } else {
            m.push(new.last())
        }
    }
}

/// No tag occurs twice.
pub open spec fn no_duplicates(s: Seq<Seq<char>>) -> bool {
    forall|i: int, j: int| 0 <= i < j < s.len() ==> s[i] != s[j]
}

/// Appends to `tags` each tag of `new` it does not hold yet, in order.
pub fn merge_tags(tags: &mut Vec<String>, new: Vec<String>)
    ensures
        views(final(tags)@) == merge_tags_spec(views(old(tags)@), views(new@)),
{
    let ghost acc = views(tags@);
    let ghost ns = views(new@);
    let mut i: usize = 0;
    while i < new.len()
        invariant
            i <= new.len(),
            acc == views(old(tags)@),
            ns == views(new@),
            views(tags@) == merge_tags_spec(acc, ns.take(i as int)),
        decreases new.len() - i,
    {
        proof {
            assert(ns.take(i + 1).drop_last() =~= ns.take(i as int));
            assert(ns.take(i + 1).last() == new@[i as int]@);
        }
        let mut present = false;
        let mut k: usize = 0;
        while k < tags.len()
            invariant
                k <= tags.len(),
                i < new.len(),
                present <==> exists|w: int| 0 <= w < k && tags@[w]@ == new@[i as int]@,
            decreases tags.len() - k,
        {
            if crate::text::str_eq(tags[k].as_str(), new[i].as_str()) {
                present = true;
            }
            k = k + 1;
        }
        proof {
            let m = views(tags@);
            if present {
                let w = choose|w: int| 0 <= w < k && tags@[w]@ == new@[i as int]@;
                assert(m[w] == new@[i as int]@);
                assert(m.contains(new@[i as int]@));
            } else {
                assert(!m.contains(new@[i as int]@)) by {
                    if m.contains(new@[i as int]@) {
                        let w = choose|w: int| 0 <= w < m.len() && m[w] == new@[i as int]@;
                        assert(tags@[w]@ == new@[i as int]@);
                    }
                }
            }
        }
        if !present {
            tags.push(new[i].clone());
            proof {
                assert(views(tags@) =~= merge_tags_spec(acc, ns.take(i as int)).push(new@[i as int]@));
            }
        }
        i = i + 1;
    }
    proof {
        assert(ns.take(i as int) =~= ns);
    }
}

/// Merging keeps the tags already there, adds every new tag, adds nothing
/// else and never duplicates one, given none was duplicated before.
pub proof fn law_merge_tags(acc: Seq<Seq<char>>, new: Seq<Seq<char>>)
    requires
        no_duplicates(acc),
    ensures
        no_duplicates(merge_tags_spec(acc, new)),
        merge_tags_spec(acc, new).len() >= acc.len(),
        merge_tags_spec(acc, new).take(acc.len() as int) == acc,
        forall|t: Seq<char>| merge_tags_spec(acc, new).contains(t) <==> (acc.contains(t) || new.contains(t)),
    decreases new.len(),
{
    if new.len() > 0 {
        law_merge_tags(acc, new.drop_last());
        let m = merge_tags_spec(acc, new.drop_last());
        let x = new.last();
        assert forall|t: Seq<char>| merge_tags_spec(acc, new).contains(t) <==> (acc.contains(t) || new.contains(t)) by {
            if new.contains(t) && !new.drop_last().contains(t) {
                let w = choose|w: int| 0 <= w < new.len() && new[w] == t;
                if w < new.len() - 1 {
                    assert(new.drop_last()[w] == t);
                }
                assert(t == x);
            }
            if new.drop_last().contains(t) {
                let w = choose|w: int| 0 <= w < new.drop_last().len() && new.drop_last()[w] == t;
                assert(new[w] == t);
            }
            if !m.contains(x) {
                if m.push(x).contains(t) && t != x {
                    let w = choose|w: int| 0 <= w < m.push(x).len() && m.push(x)[w] == t;
                    assert(m[w] == t);
                }
                if t == x {
                    assert(m.push(x)[m.len() as int] == t);
                }
                if m.contains(t) {
                    let w = choose|w: int| 0 <= w < m.len() && m[w] == t;
                    assert(m.push(x)[w] == t);
                }
            }
        }
        if !m.contains(x) {
            assert(m.push(x).take(acc.len() as int) =~= m.take(acc.len() as int));
            assert forall|i: int, j: int| 0 <= i < j < m.push(x).len() implies m.push(x)[i] != m.push(x)[j] by {
                if j == m.len() {
                    assert(m[i] == m.push(x)[i]);
                }
            }
        }
    }
}

/// The tags the request classifiers give `req`: the keyword classifier's,
/// when config enables it.
pub open spec fn request_tags(table: Seq<(String, EntryConfig)>, req: ChatRequest) -> Seq<Seq<char>> {
    match entry_for(table, "keyword"@) {
        Some(e) => if e.enabled {
            merge_tags_spec(Seq::empty(), keyword_tags(e.settings@, request_haystack(req)))
        } else {
            Seq::empty()
        },
        None => Seq::empty(),
    }
}

/// The request classifiers the router knows, with what config says of each.
pub struct ClassifierRegistry<'a> {
    /// `[classifiers.<id>]` of the configuration.
    pub table: &'a Vec<(String, EntryConfig)>,
}

impl<'a> ClassifierRegistry<'a> {
    pub fn from_config(config: &'a Config) -> (r: ClassifierRegistry<'a>)
        ensures
            r.table == &config.classifiers,
    {
        ClassifierRegistry { table: &config.classifiers }
    }

    /// Runs every enabled classifier over `req` and returns the union of
    /// their tags, without duplicates, in registry order.
    pub fn classify(&self, req: &ChatRequest) -> (r: Vec<String>)
        ensures
            views(r@) == request_tags(self.table@, *req),
    {
        proof {
            reveal_strlit("keyword");
        }
        let mut tags: Vec<String> = Vec::new();
        let classifier = KeywordClassifier;
        match find_entry(self.table, classifier.id()) {
            Some(e) => {
                if e.enabled {
                    let ctx = ClassifierContext { settings: Some(&e.settings) };
                    let new = classifier.classify(&ctx, req);
                    proof {
                        assert(views(tags@) =~= Seq::<Seq<char>>::empty());
                    }
                    merge_tags(&mut tags, new);
                }
            },
            None => {},
        }
        proof {
            assert(views(tags@) =~= request_tags(self.table@, *req));
        }
        tags
    }
}

/// The tags the response classifiers give a response with `content`: the
/// refusal classifier's, when config enables it.
pub open spec fn response_tags(table: Seq<(String, EntryConfig)>, content: Seq<char>) -> Seq<Seq<char>> {
    match entry_for(table, "refusal"@) {
        Some(e) => if e.enabled {
            merge_tags_spec(Seq::empty(), refusal_tags(e.settings@, content))
        } else {
            Seq::empty()
        },
        None => Seq::empty(),
    }
}

/// The response classifiers the router knows, with what config says of
/// each. They run after the `PostResponse` hooks; their tags reach clients
/// only through a response header.
pub struct ResponseClassifierRegistry<'a> {
    /// `[response_classifiers.<id>]` of the configuration.
    pub table: &'a Vec<(String, EntryConfig)>,
}

impl<'a> ResponseClassifierRegistry<'a> {
    pub fn from_config(config: &'a Config) -> (r: ResponseClassifierRegistry<'a>)
        ensures
            r.table == &config.response_classifiers,
    {
        ResponseClassifierRegistry { table: &config.response_classifiers }
    }

    /// Runs every enabled response classifier over `resp` and returns the
    /// union of their tags, without duplicates, in registry order.
    pub fn classify(&self, req: &ChatRequest, resp: &ChatResponse) -> (r: Vec<String>)
        ensures
            views(r@) == response_tags(self.table@, resp.content@),
    {
        proof {
            reveal_strlit("refusal");
        }
        let mut tags: Vec<String> = Vec::new();
        let classifier = RefusalClassifier;
        match find_entry(self.table, classifier.id()) {
            Some(e) => {
                if e.enabled {
                    let ctx = ClassifierContext { settings: Some(&e.settings) };
                    let new = classifier.classify(&ctx, req, resp);
                    proof {
                        assert(views(tags@) =~= Seq::<Seq<char>>::empty());
                    }
                    merge_tags(&mut tags, new);
                }
            },
            None => {},
        }
        proof {
            assert(views(tags@) =~= response_tags(self.table@, resp.content@));
        }
        tags
    }
}

} // verus!
