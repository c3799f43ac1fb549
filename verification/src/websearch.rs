//! Data shapes of the web-search module and the request and result text
//! it derives. The network traffic itself is the host's job.

use vstd::prelude::*;

use crate::text::opt_view;

verus! {

/// One search hit ready for display.
#[derive(Debug, Clone)]
pub struct SearchResult {
    pub destination_url: String,
    pub title: String,
    pub description: String,
    pub image_url: Option<String>,
}

#[derive(Debug, Clone)]
pub enum SearchError {
    BadResponse(String),
}

impl SearchError {
    /// The display text of the error.
    pub fn message(&self) -> (r: String)
        ensures
            self matches SearchError::BadResponse(inner) && r@ == "Bad Response: "@ + inner@,
    {
        match self {
            SearchError::BadResponse(inner) => {
                let mut out = String::from_str("Bad Response: ");
                out.append(inner.as_str());
                out
            },
        }
    }
}

/// One hit of the encyclopedia title search, as the host decodes it.
#[derive(Debug, Clone)]
pub struct WikiPage {
    pub key: String,
    pub title: String,
    pub description: String,
    pub thumb_url: Option<String>,
}

impl SearchResult {
    /// Builds a display hit from an encyclopedia page: the destination is
    /// the article address of the page key, and a thumbnail address gets
    /// its scheme prefixed.
    pub fn from_wiki(page: WikiPage) -> (r: SearchResult)
        ensures
            r.destination_url@ == "https://en.wikipedia.org/wiki/"@ + page.key@,
            r.title == page.title,
            r.description == page.description,
            match page.thumb_url {
                Some(t) => opt_view(r.image_url) == Some("https:"@ + t@),
                None => r.image_url is None,
            },
    {
        let mut dest = String::from_str("https://en.wikipedia.org/wiki/");
        dest.append(page.key.as_str());
        let image_url: Option<String> = match page.thumb_url {
            Some(t) => {
                let mut u = String::from_str("https:");
                u.append(t.as_str());
                Some(u)
            },
            None => None,
        };
        SearchResult {
            destination_url: dest,
            title: page.title,
            description: page.description,
            image_url,
        }
    }
}

/// The title-search request address for a query.
pub fn wikipedia_search_url(search_text: &str) -> (r: String)
    ensures
        r@ == "https://en.wikipedia.org/w/rest.php/v1/search/title?q="@ + search_text@
            + "&limit=5"@,
{
    let mut out = String::from_str("https://en.wikipedia.org/w/rest.php/v1/search/title?q=");
    out.append(search_text);
    out.append("&limit=5");
    out
}

/// The dictionary request address for a query.
pub fn dictionary_search_url(search_text: &str) -> (r: String)
    ensures
        r@ == "https://api.dictionaryapi.dev/api/v2/entries/en/"@ + search_text@,
{
    let mut out = String::from_str("https://api.dictionaryapi.dev/api/v2/entries/en/");
    out.append(search_text);
    out
}

/// One meaning of a dictionary entry, as the host decodes it.
#[derive(Debug)]
pub struct DictMeaning {
    pub part_of_speech: String,
    pub definitions: Vec<String>,
}

/// The definition texts of one meaning.
pub open spec fn meaning_defs(m: DictMeaning) -> Seq<Seq<char>> {
    m.definitions.deep_view()
}

/// The concatenation of a list of texts, in order.
pub open spec fn spec_concat(s: Seq<Seq<char>>) -> Seq<char>
    decreases s.len(),
{
    if s.len() == 0 {
        Seq::empty()
    } else {
        s[0] + spec_concat(s.drop_first())
    }
}

/// All definition texts of all meanings, concatenated in order.
pub open spec fn spec_dict_title(ms: Seq<DictMeaning>) -> Seq<char> {
    spec_concat(ms.map_values(|m: DictMeaning| spec_concat(meaning_defs(m))))
}

fn concat_strings(v: &Vec<String>) -> (r: String)
    ensures
        r@ == spec_concat(v.deep_view()),
{
    let ghost dv = v.deep_view();
    let mut out = String::new();
    let n = v.len();
    let mut i: usize = 0;
    proof {
        assert(dv.skip(0) =~= dv);
        assert(out@ + spec_concat(dv) =~= spec_concat(dv));
    }
    while i < n
        invariant
            i <= n,
            n == dv.len(),
            dv == v.deep_view(),
            forall|t: int| 0 <= t < n ==> dv[t] == #[trigger] v@[t]@,
            spec_concat(dv) == out@ + spec_concat(dv.skip(i as int)),
        decreases n - i,
    {
        out.append(v[i].as_str());
        proof {
            assert(dv.skip(i as int)[0] == dv[i as int]);
            assert(dv.skip(i as int).drop_first() =~= dv.skip(i + 1 as int));
        }
        i += 1;
    }
    proof {
        assert(dv.skip(n as int) =~= Seq::<Seq<char>>::empty());
    }
    out
}

impl SearchResult {
    /// Builds a display hit from a dictionary response: the title strings
    /// every definition of every meaning together; a dictionary hit has
    /// no destination of its own.
    pub fn from_dictionary(meanings: &Vec<DictMeaning>) -> (r: SearchResult)
        ensures
            r.destination_url@ == "n/a"@,
            r.title@ == spec_dict_title(meanings@),
            r.description@ == "hugjfl"@,
            r.image_url is None,
    {
        let ghost mv = meanings@.map_values(|m: DictMeaning| spec_concat(meaning_defs(m)));
        let mut title = String::new();
        let n = meanings.len();
        let mut i: usize = 0;
        proof {
            assert(mv.skip(0) =~= mv);
            assert(title@ + spec_concat(mv) =~= spec_concat(mv));
        }
        while i < n
            invariant
                i <= n,
                n == meanings@.len(),
                mv == meanings@.map_values(|m: DictMeaning| spec_concat(meaning_defs(m))),
                mv.len() == n,
                spec_concat(mv) == title@ + spec_concat(mv.skip(i as int)),
            decreases n - i,
        {
            let piece = concat_strings(&meanings[i].definitions);
            title.append(piece.as_str());
            proof {
                assert(mv[i as int] == spec_concat(meaning_defs(meanings@[i as int])));
                assert(piece@ == mv[i as int]);
                assert(mv.skip(i as int)[0] == mv[i as int]);
                assert(mv.skip(i as int).drop_first() =~= mv.skip(i + 1 as int));
            }
            i += 1;
        }
        proof {
            assert(mv.skip(n as int) =~= Seq::<Seq<char>>::empty());
        }
        SearchResult {
            destination_url: String::from_str("n/a"),
            title,
            description: String::from_str("hugjfl"),
            image_url: None,
        }
    }
}

} // verus!
