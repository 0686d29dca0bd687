//! The corpus catalogue and the fetch schedule: reading the listing pages
//! of authors and works, and bounding how many fetches are in flight.

use vstd::prelude::*;

use crate::chars::{concat, trim, trim_str};

verus! {

/// The site that hosts the corpus.
pub const BASE_URL: &'static str = "https://thelatinlibrary.com/";

/// The element that marks the catalogue page: the list of authors in its form.
pub const CATALOGUE_MARKER: &'static str = "form[name=myform] select[name=dest]";

/// One entry per author on the catalogue page.
pub const AUTHOR_SELECTOR: &'static str = "form[name=myform] select[name=dest] option";

/// One entry per work on an author's page.
pub const WORK_SELECTOR: &'static str = "div.work table tr td a";

/// An author as the catalogue lists them, with the works found so far.
#[derive(Debug, Clone, PartialEq, Eq)]
pub struct AuthorInfo {
    pub name: String,
    pub url: String,
    pub texts: Vec<TextInfo>,
}

/// A work as an author's page lists it.
#[derive(Debug, Clone, PartialEq, Eq)]
pub struct TextInfo {
    pub name: String,
    pub url: String,
}

/// An element that a selector matched: its inner markup and the value of
/// the attribute asked for, if it has one.
#[derive(Debug, Clone, PartialEq, Eq)]
pub struct Element {
    pub inner: String,
    pub attr: Option<String>,
}

pub open spec fn element_view(e: Element) -> (Seq<char>, Option<Seq<char>>) {
    (e.inner@, match e.attr {
        Some(a) => Some(a@),
        None => None,
    })
}

pub open spec fn elements_view(r: Option<Vec<Element>>) -> Option<Seq<(Seq<char>, Option<Seq<char>>)>> {
    match r {
        Some(v) => Some(Seq::new(v@.len(), |i: int| element_view(v@[i]))),
        None => None,
    }
}

/// The elements of an HTML document that a CSS selector matches, in
/// document order, each with its inner markup and one attribute; none if
/// the selector does not parse.
pub uninterp spec fn selected_of(
    html: Seq<char>,
    selector: Seq<char>,
    attr: Seq<char>,
) -> Option<Seq<(Seq<char>, Option<Seq<char>>)>>;

/// Relies on scraper's `Selector::parse`, `Html::parse_document`,
/// `Html::select`, `ElementRef::inner_html` and `Element::attr`: the matches
/// in document order; `None` where the selector does not parse.
#[verifier::external_body]
fn select_elements(html: &str, selector: &str, attr: &str) -> (r: Option<Vec<Element>>)
    ensures
        elements_view(r) == selected_of(html@, selector@, attr@),
{
    let selector = scraper::Selector::parse(selector).ok()?;
    let document = scraper::Html::parse_document(html);
    let found = document.select(&selector).map(
        |e| Element { inner: e.inner_html(), attr: e.value().attr(attr).map(|a| a.to_owned()) },
    );
    Some(found.collect())
}

/// The absolute address of a path on the site.
pub fn path_to_url(path: &str) -> (r: String)
    ensures
        r@ == BASE_URL@ + trim(path@),
{
    concat(BASE_URL, trim_str(path).as_str())
}

/// The (label, address) pairs of the entries that carry the attribute.
pub open spec fn listed(entries: Seq<(Seq<char>, Option<Seq<char>>)>) -> Seq<(Seq<char>, Seq<char>)>
    decreases entries.len(),
{
    if entries.len() == 0 {
        Seq::empty()
    } else {
        let (label, target) = entries.last();
        match target {
            Some(t) => listed(entries.drop_last()).push((trim(label), BASE_URL@ + trim(t))),
            None => listed(entries.drop_last()),
        }
    }
}

pub open spec fn text_infos_view(v: Seq<TextInfo>) -> Seq<(Seq<char>, Seq<char>)> {
    Seq::new(v.len(), |i: int| (v[i].name@, v[i].url@))
}

pub open spec fn author_infos_view(v: Seq<AuthorInfo>) -> Seq<(Seq<char>, Seq<char>)> {
    Seq::new(v.len(), |i: int| (v[i].name@, v[i].url@))
}

/// Why the catalogue page could not be read.
#[derive(Debug, Clone, Copy, PartialEq, Eq, Structural)]
pub enum CatalogueError {
    /// The page lacks the element that marks the catalogue.
    MissingCatalogue,
}

fn listing(elements: &Vec<Element>) -> (r: Vec<TextInfo>)
    ensures
        text_infos_view(r@) == listed(Seq::new(elements@.len(), |i: int| element_view(elements@[i]))),
{
    let ghost all = Seq::new(elements@.len(), |i: int| element_view(elements@[i]));
    let mut out: Vec<TextInfo> = Vec::new();
    let mut i: usize = 0;
    assert(all.subrange(0, 0) =~= Seq::<(Seq<char>, Option<Seq<char>>)>::empty());
    assert(text_infos_view(out@) =~= Seq::<(Seq<char>, Seq<char>)>::empty());
    while i < elements.len()
        invariant
            i <= elements@.len(),
            all == Seq::new(elements@.len(), |i: int| element_view(elements@[i])),
            text_infos_view(out@) == listed(all.subrange(0, i as int)),
        decreases elements.len() - i,
    {
        let e = &elements[i];
        assert(all.subrange(0, i + 1).drop_last() =~= all.subrange(0, i as int));
        assert(all.subrange(0, i + 1).last() == element_view(elements@[i as int]));
        match &e.attr {
            Some(target) => {
                let ghost before = out@;
                out.push(TextInfo { name: trim_str(e.inner.as_str()), url: path_to_url(target.as_str()) });
                assert(text_infos_view(out@) =~= text_infos_view(before).push(
                    (trim(e.inner@), BASE_URL@ + trim(target@)),
                ));
            },
            None => {},
        }
        i = i + 1;
    }
    assert(all.subrange(0, all.len() as int) =~= all);
    out
}

/// The authors on the catalogue page, each with the address of their
/// page; an entry without an address is passed over. A page without the
/// author list of the catalogue form is an error.
pub fn parse_authors(html: &str) -> (r: Result<Vec<AuthorInfo>, CatalogueError>)
    ensures
        match r {
            Ok(v) => {
                &&& selected_of(html@, CATALOGUE_MARKER@, "value"@) matches Some(m) && m.len() > 0
                &&& author_infos_view(v@) == listed(match selected_of(html@, AUTHOR_SELECTOR@, "value"@) {
                    Some(es) => es,
                    None => Seq::empty(),
                })
                &&& forall|i: int| 0 <= i < v@.len() ==> (#[trigger] v@[i]).texts@.len() == 0
            },
            Err(_) => !(selected_of(html@, CATALOGUE_MARKER@, "value"@) matches Some(m) && m.len() > 0),
        },
{
    match select_elements(html, CATALOGUE_MARKER, "value") {
        Some(m) => {
            if m.len() == 0 {
                return Err(CatalogueError::MissingCatalogue);
            }
        },
        None => {
            return Err(CatalogueError::MissingCatalogue);
        },
    }
    let entries = match select_elements(html, AUTHOR_SELECTOR, "value") {
        Some(es) => es,
        None => Vec::new(),
    };
    assert(Seq::new(entries@.len(), |i: int| element_view(entries@[i])) =~= match selected_of(html@, AUTHOR_SELECTOR@, "value"@) {
        Some(es) => es,
        None => Seq::empty(),
    });
    let works = listing(&entries);
    let mut out: Vec<AuthorInfo> = Vec::new();
    let mut i: usize = 0;
    while i < works.len()
        invariant
            i <= works@.len(),
            out@.len() == i,
            forall|k: int| 0 <= k < i ==> (#[trigger] out@[k]).name@ == works@[k].name@ && out@[k].url@ == works@[k].url@ && out@[k].texts@.len() == 0,
        decreases works.len() - i,
    {
        out.push(AuthorInfo { name: works[i].name.clone(), url: works[i].url.clone(), texts: Vec::new() });
        i = i + 1;
    }
    assert(author_infos_view(out@) =~= text_infos_view(works@));
    Ok(out)
}

/// The works on an author's page, each with its address; an entry without
/// an address is passed over, and a page without the listing has none.
pub fn parse_texts(html: &str) -> (r: Vec<TextInfo>)
    ensures
        text_infos_view(r@) == listed(match selected_of(html@, WORK_SELECTOR@, "href"@) {
            Some(es) => es,
            None => Seq::empty(),
        }),
{
    let entries = match select_elements(html, WORK_SELECTOR, "href") {
        Some(es) => es,
        None => Vec::new(),
    };
    assert(Seq::new(entries@.len(), |i: int| element_view(entries@[i])) =~= match selected_of(html@, WORK_SELECTOR@, "href"@) {
        Some(es) => es,
        None => Seq::empty(),
    });
    listing(&entries)
}

/// Bounds the number of fetches in flight.
#[derive(Debug, Clone, Copy, PartialEq, Eq, Structural)]
pub struct FetchLimiter {
    cap: usize,
    in_flight: usize,
}

impl FetchLimiter {
    pub closed spec fn cap_spec(&self) -> nat {
        self.cap as nat
    }

    pub closed spec fn in_flight_spec(&self) -> nat {
        self.in_flight as nat
    }

    pub closed spec fn wf(&self) -> bool {
        self.in_flight <= self.cap
    }

    /// A limiter that lets at most `cap` fetches run at once.
    pub fn new(cap: usize) -> (r: FetchLimiter)
        ensures
            r.wf(),
            r.cap_spec() == cap,
            r.in_flight_spec() == 0,
    {
        FetchLimiter { cap, in_flight: 0 }
    }

    pub fn cap(&self) -> (r: usize)
        ensures
            r == self.cap_spec(),
    {
        self.cap
    }

    pub fn in_flight(&self) -> (r: usize)
        ensures
            r == self.in_flight_spec(),
    {
        self.in_flight
    }

    /// Takes a unit for one more fetch if the cap allows it.
    pub fn try_acquire(&mut self) -> (r: bool)
        requires
            old(self).wf(),
        ensures
            final(self).wf(),
            r == (old(self).in_flight_spec() < old(self).cap_spec()),
            final(self).cap_spec() == old(self).cap_spec(),
            final(self).in_flight_spec() == old(self).in_flight_spec() + if r { 1nat } else { 0nat },
    {
        if self.in_flight < self.cap {
            self.in_flight = self.in_flight + 1;
            true
        } else {
            false
        }
    }

    /// Gives back the unit of a fetch whose body has been read.
    pub fn release(&mut self)
        requires
            old(self).wf(),
            old(self).in_flight_spec() > 0,
        ensures
            final(self).wf(),
            final(self).cap_spec() == old(self).cap_spec(),
            final(self).in_flight_spec() == old(self).in_flight_spec() - 1,
    {
        self.in_flight = self.in_flight - 1;
    }
}

/// What the fetch loop does next.
#[derive(Debug, Clone, Copy, PartialEq, Eq, Structural)]
pub enum FetchStep {
    /// Start fetching the address with this index.
    Start(usize),
    /// Wait for a fetch in flight to complete.
    Wait,
    /// Every fetch has completed.
    Finished,
}

/// The schedule of fetching `total` addresses under a cap: they start in
/// order, each once, never more than the cap at a time.
#[derive(Debug, Clone, Copy, PartialEq, Eq, Structural)]
pub struct FetchSchedule {
    limiter: FetchLimiter,
    total: usize,
    started: usize,
    completed: usize,
}

impl FetchSchedule {
    pub closed spec fn wf(&self) -> bool {
        &&& self.limiter.wf()
        &&& self.completed <= self.started <= self.total
        &&& self.limiter.in_flight == self.started - self.completed
    }

    pub closed spec fn cap_spec(&self) -> nat {
        self.limiter.cap as nat
    }

    pub closed spec fn total_spec(&self) -> nat {
        self.total as nat
    }

    pub closed spec fn started_spec(&self) -> nat {
        self.started as nat
    }

    pub closed spec fn completed_spec(&self) -> nat {
        self.completed as nat
    }

    /// The fetches started and not yet completed.
    pub open spec fn in_flight_spec(&self) -> nat {
        (self.started_spec() - self.completed_spec()) as nat
    }

    pub fn new(total: usize, cap: usize) -> (r: FetchSchedule)
        ensures
            r.wf(),
            r.total_spec() == total,
            r.cap_spec() == cap,
            r.started_spec() == 0,
            r.completed_spec() == 0,
    {
        FetchSchedule { limiter: FetchLimiter::new(cap), total, started: 0, completed: 0 }
    }

    pub fn in_flight(&self) -> (r: usize)
        requires
            self.wf(),
        ensures
            r == self.in_flight_spec(),
    {
        self.limiter.in_flight()
    }

    /// Starts the next fetch if one is left and the cap allows it.
    pub fn next_step(&mut self) -> (r: FetchStep)
        requires
            old(self).wf(),
        ensures
            final(self).wf(),
            final(self).total_spec() == old(self).total_spec(),
            final(self).cap_spec() == old(self).cap_spec(),
            final(self).completed_spec() == old(self).completed_spec(),
            final(self).in_flight_spec() <= final(self).cap_spec(),
            match r {
                FetchStep::Start(i) => {
                    &&& i == old(self).started_spec()
                    &&& old(self).started_spec() < old(self).total_spec()
                    &&& old(self).in_flight_spec() < old(self).cap_spec()
                    &&& final(self).started_spec() == old(self).started_spec() + 1
                },
                FetchStep::Wait => {
                    &&& final(self).started_spec() == old(self).started_spec()
                    &&& old(self).completed_spec() < old(self).total_spec()
                    &&& (old(self).started_spec() == old(self).total_spec()
                        || old(self).in_flight_spec() == old(self).cap_spec())
                },
                FetchStep::Finished => {
                    &&& final(self).started_spec() == old(self).started_spec()
                    &&& old(self).completed_spec() == old(self).total_spec()
                },
            },
    {
        if self.completed == self.total {
            return FetchStep::Finished;
        }
        if self.started < self.total && self.limiter.try_acquire() {
            let i = self.started;
            self.started = self.started + 1;
            FetchStep::Start(i)
        } else {
            FetchStep::Wait
        }
    }

    /// Records that a fetch in flight has read its body.
    pub fn complete(&mut self)
        requires
            old(self).wf(),
            old(self).in_flight_spec() > 0,
        ensures
            final(self).wf(),
            final(self).total_spec() == old(self).total_spec(),
            final(self).cap_spec() == old(self).cap_spec(),
            final(self).started_spec() == old(self).started_spec(),
            final(self).completed_spec() == old(self).completed_spec() + 1,
    {
        self.limiter.release();
        self.completed = self.completed + 1;
    }
}

/// However the steps of a schedule interleave, no more fetches are in
/// flight than the cap allows.
pub proof fn lemma_in_flight_within_cap(s: FetchSchedule)
    requires
        s.wf(),
    ensures
        s.in_flight_spec() <= s.cap_spec(),
        s.started_spec() <= s.total_spec(),
{
}

} // verus!
