//! Classification and normalization of URL strings.
//!
//! All three rules work on the raw characters of a URL. None of them parses
//! the URL: a string is internal when it starts with `https://<domain>`, so
//! `https://<domain>.evil.com` counts as internal too, and only a path from
//! the root of the site, `/page`, is resolved against the domain.

use vstd::prelude::*;
use vstd::std_specs::iter::IteratorSpec;

verus! {

broadcast use vstd::string::group_string_axioms;

/// The absolute URL of the root of `domain`: `https://<domain>`.
pub open spec fn origin(domain: Seq<char>) -> Seq<char> {
    "https://"@ + domain
}

/// A URL is external unless it starts with the origin of `domain`.
pub open spec fn is_external(domain: Seq<char>, url: Seq<char>) -> bool {
    !origin(domain).is_prefix_of(url)
}

/// A link is worth following unless it is a mail address or a fragment of
/// the page it stands on.
pub open spec fn is_scrapeable(url: Seq<char>) -> bool {
    !"mailto:"@.is_prefix_of(url) && !"#"@.is_prefix_of(url)
}

/// A path from the root of a site: it starts with `/`, but not with `//`,
/// which stands before a host name.
pub open spec fn is_rooted_path(url: Seq<char>) -> bool {
    "/"@.is_prefix_of(url) && !"//"@.is_prefix_of(url)
}

/// A path from the root of the site is resolved against the origin of
/// `domain`; every other URL stands for itself. No other relative form is
/// resolved: `//host/path`, `./page`, `../page` and `host/path` are left as
/// they are.
pub open spec fn normalized(domain: Seq<char>, url: Seq<char>) -> Seq<char> {
    if is_rooted_path(url) {
        origin(domain) + url
    } else {
        url
    }
}

/// The site that a crawl is confined to.
pub struct Config {
    domain: String,
    origin: String,
}

impl View for Config {
    type V = Seq<char>;

    /// A configuration is known by its domain.
    closed spec fn view(&self) -> Seq<char> {
        self.domain@
    }
}

impl Config {
    #[verifier::type_invariant]
    spec fn origin_is_derived(&self) -> bool {
        self.origin@ == origin(self.domain@)
    }

    /// The configuration for `domain`, a host name without scheme or path.
    pub fn new(domain: String) -> (config: Config)
        ensures
            config@ == domain@,
    {
        let mut origin = String::from_str("https://");
        origin.append(domain.as_str());
        Config { domain, origin }
    }

    /// The domain that the crawl is confined to.
    pub fn domain(&self) -> (domain: &String)
        ensures
            domain@ == self@,
    {
        &self.domain
    }

    /// The URL at which a crawl of this domain starts.
    pub fn seed_url(&self) -> (seed: String)
        ensures
            seed@ == origin(self@),
    {
        proof {
            use_type_invariant(self);
        }
        self.origin.clone()
    }
}

/// Whether `text` starts with `prefix`.
pub fn starts_with(text: &str, prefix: &str) -> (found: bool)
    ensures
        found == prefix@.is_prefix_of(text@),
{
    let mut rest = text.chars();
    let mut wanted = prefix.chars();
    let ghost mut matched: int = 0;
    loop
        invariant
            0 <= matched <= prefix@.len(),
            matched <= text@.len(),
            rest.remaining() == text@.skip(matched),
            wanted.remaining() == prefix@.skip(matched),
            text@.take(matched) == prefix@.take(matched),
        decreases prefix@.len() - matched,
    {
        match wanted.next() {
            None => {
                return true;
            },
            Some(expected) => {
                match rest.next() {
                    None => {
                        return false;
                    },
                    Some(actual) => {
                        if actual != expected {
                            return false;
                        }
                    },
                }
            },
        }
        proof {
            matched = matched + 1;
        }
    }
}

/// Whether `url` lies outside the configured domain.
///
/// The answer is a function of the characters of `url` and of the domain
/// alone: asking again gives the same answer.
pub fn is_url_external(config: &Config, url: &String) -> (external: bool)
    ensures
        external == is_external(config@, url@),
{
    proof {
        use_type_invariant(config);
    }
    !starts_with(url.as_str(), config.origin.as_str())
}

/// Whether a link found on a page is eligible for the frontier.
///
/// The answer is a function of the characters of `url` alone: asking again
/// gives the same answer.
pub fn is_url_scrapeable(url: &String) -> (scrapeable: bool)
    ensures
        scrapeable == is_scrapeable(url@),
{
    !starts_with(url.as_str(), "mailto:") && !starts_with(url.as_str(), "#")
}

/// The absolute form of `url`: a path from the root of the site, which
/// starts with `/` and not with `//`, is put behind `https://<domain>`.
/// Anything else is returned as it is, `//host/path` too.
pub fn normalize_url(config: &Config, url: &String) -> (absolute: String)
    ensures
        absolute@ == normalized(config@, url@),
        is_rooted_path(url@) ==> absolute@ == "https://"@ + config@ + url@,
        !is_rooted_path(url@) ==> absolute@ == url@,
{
    proof {
        use_type_invariant(config);
    }
    if starts_with(url.as_str(), "/") && !starts_with(url.as_str(), "//") {
        let mut absolute = config.origin.clone();
        absolute.append(url.as_str());
        absolute
    } else {
        url.clone()
    }
}

/// Normalizing twice is normalizing once: what comes out of `normalized` is
/// no path from the root of the site.
pub proof fn lemma_normalized_is_fixed_point(domain: Seq<char>, url: Seq<char>)
    ensures
        !is_rooted_path(normalized(domain, url)),
        normalized(domain, normalized(domain, url)) == normalized(domain, url),
{
    reveal_strlit("/");
    reveal_strlit("https://");
    assert("/"@[0] == '/');
}

/// A path from the root of the site is, once normalized, internal.
pub proof fn lemma_normalized_path_is_internal(domain: Seq<char>, path: Seq<char>)
    requires
        is_rooted_path(path),
    ensures
        !is_external(domain, normalized(domain, path)),
{
}

/// A URL that starts with `//` is left as it is, and it is external.
pub proof fn lemma_host_relative_is_untouched(domain: Seq<char>, url: Seq<char>)
    requires
        "//"@.is_prefix_of(url),
    ensures
        normalized(domain, url) == url,
        is_external(domain, url),
{
    reveal_strlit("//");
    reveal_strlit("https://");
    assert("//"@[0] == '/');
    assert(origin(domain)[0] == 'h');
}

/// The seed of a crawl is internal, scrapeable and already absolute.
pub proof fn lemma_origin_is_internal(domain: Seq<char>)
    ensures
        !is_external(domain, origin(domain)),
        is_scrapeable(origin(domain)),
        normalized(domain, origin(domain)) == origin(domain),
{
    reveal_strlit("/");
    reveal_strlit("#");
    reveal_strlit("mailto:");
    reveal_strlit("https://");
    assert("/"@[0] == '/');
    assert("#"@[0] == '#');
    assert("mailto:"@[0] == 'm');
}

} // verus!
