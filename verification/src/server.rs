//! Server configuration and per-request response computation.
//!
//! A `Server` holds the bind address, port, debug flag, root directory,
//! default page name and the registry of dynamic pages.  The host program
//! owns the sockets and the filesystem: it reads the request and the
//! resolved file, hands both to [`Server::respond`], and writes the framed
//! bytes back to the connection.

use vstd::prelude::*;
use vstd::string::StringExecFns;
use vstd::string::StrSliceExecFns;
use vstd::utf8::encode_utf8;
use crate::encoding::chars_of;
use crate::encoding::encode_string;
use crate::encoding::lossy_decode_of;
use crate::encoding::lossy_string;
use crate::encoding::string_of;
use crate::text::contains_chars;
use crate::text::replace_chars;
use crate::text::spec_replace;

verus! {

/// The capability behind an anchor: produce replacement text, with no
/// input, invoked synchronously.  Hosts implement it with whatever a page
/// needs; nothing is assumed about the text it returns.
pub trait PageCallback {
    fn produce(&self) -> String;
}

/// One substitution point: a marker paired with the callback whose output
/// replaces every occurrence of the marker.
#[derive(Clone)]
pub struct Anchor<C> {
    pub marker: String,
    pub function: C,
}

/// A URL (matched exactly against the requested URL) whose served content
/// is subject to anchor substitution, in registration order.
#[derive(Clone)]
pub struct DynamicPage<C> {
    pub url: String,
    pub anchors: Vec<Anchor<C>>,
}

/// Status of a response: every request is answered 200 or 404.
#[derive(Clone, Copy, PartialEq, Eq, Structural, Debug)]
pub enum HttpStatus {
    Okay,
    NotFound,
}

impl HttpStatus {
    /// The full status line and blank line that precede the body.
    pub open spec fn spec_status_line(self) -> Seq<char> {
        match self {
            HttpStatus::Okay => "HTTP/1.1 200 OK\r\n\r\n"@,
            HttpStatus::NotFound => "HTTP/1.1 404 Not Found\r\n\r\n"@,
        }
    }

    /// The status line as text.
    pub fn status_line(&self) -> (r: &'static str)
        ensures
            r@ == self.spec_status_line(),
    {
        match self {
            HttpStatus::Okay => "HTTP/1.1 200 OK\r\n\r\n",
            HttpStatus::NotFound => "HTTP/1.1 404 Not Found\r\n\r\n",
        }
    }
}

/// Frames a response as it goes on the wire: the status line, a blank
/// line, and the raw body bytes.  No other header is emitted.
pub fn frame_response(status: HttpStatus, body: &Vec<u8>) -> (r: Vec<u8>)
    ensures
        r@ == encode_utf8(status.spec_status_line()) + body@,
{
    let mut r = status.status_line().as_bytes_vec();
    crate::text::push_all(&mut r, body);
    r
}

/// The HTTP server: configuration plus the dynamic page registry.  The
/// accept loop lives in the host; every pure decision lives here.
#[derive(Clone)]
pub struct Server<C> {
    ip_address: String,
    tcp_port: u32,
    debug: bool,
    root_dir: String,
    std_page: String,
    dynamic_pages: Vec<DynamicPage<C>>,
}

/// The markers of a page's anchors, in registration order.
pub open spec fn spec_markers<C>(anchors: Seq<Anchor<C>>) -> Seq<Seq<char>> {
    anchors.map_values(|a: Anchor<C>| a.marker@)
}

/// The first registered page whose URL equals `url` exactly, if any.
pub open spec fn spec_first_page<C>(pages: Seq<DynamicPage<C>>, url: Seq<char>) -> Option<
    DynamicPage<C>,
>
    decreases pages.len(),
{
    if pages.len() == 0 {
        Option::None
    } else if pages[0].url@ == url {
        Option::Some(pages[0])
    } else {
        spec_first_page(pages.skip(1), url)
    }
}

/// Content after the anchors' markers have been substituted in order, each
/// marker replaced everywhere by the value its callback produced.
pub open spec fn spec_apply_anchors(
    content: Seq<char>,
    markers: Seq<Seq<char>>,
    vals: Seq<Seq<char>>,
) -> Seq<char>
    decreases markers.len(),
{
    if markers.len() == 0 {
        content
    } else {
        spec_apply_anchors(spec_replace(content, markers[0], vals[0]), markers.skip(1), vals.skip(1))
    }
}

/// The bytes a request's file read yields: the file's bytes on success,
/// nothing on any failure.
pub open spec fn spec_file_bytes(file: Option<Vec<u8>>) -> Seq<u8> {
    match file {
        Option::Some(f) => f@,
        Option::None => Seq::empty(),
    }
}

/// Relation between loaded bytes and a dynamic page's response body: for
/// some sequence of callback outputs, the body is the re-encoded content
/// with every marker substituted in order.
pub open spec fn spec_dynamic_body(orig: Seq<u8>, markers: Seq<Seq<char>>, out: Seq<u8>) -> bool {
    exists|vals: Seq<Seq<char>>|
        vals.len() == markers.len() && out == encode_utf8(
            spec_apply_anchors(lossy_decode_of(orig), markers, vals),
        )
}

/// Substituting one more anchor at the end applies one more replacement.
pub proof fn lemma_apply_anchors_push(
    c: Seq<char>,
    ms: Seq<Seq<char>>,
    vs: Seq<Seq<char>>,
    m: Seq<char>,
    v: Seq<char>,
)
    requires
        vs.len() == ms.len(),
    ensures
        spec_apply_anchors(c, ms.push(m), vs.push(v)) == spec_replace(
            spec_apply_anchors(c, ms, vs),
            m,
            v,
        ),
    decreases ms.len(),
{
    if ms.len() == 0 {
        assert(ms.push(m)[0] == m);
        assert(vs.push(v)[0] == v);
        assert(ms.push(m).skip(1) =~= Seq::<Seq<char>>::empty());
        assert(vs.push(v).skip(1) =~= Seq::<Seq<char>>::empty());
        assert(spec_apply_anchors(
            spec_replace(c, m, v),
            Seq::<Seq<char>>::empty(),
            Seq::<Seq<char>>::empty(),
        ) == spec_replace(c, m, v));
    } else {
        assert(ms.push(m)[0] == ms[0]);
        assert(vs.push(v)[0] == vs[0]);
        assert(ms.push(m).skip(1) =~= ms.skip(1).push(m));
        assert(vs.push(v).skip(1) =~= vs.skip(1).push(v));
        lemma_apply_anchors_push(spec_replace(c, ms[0], vs[0]), ms.skip(1), vs.skip(1), m, v);
    }
}

/// A page with a single anchor substitutes exactly that one marker: the
/// general fold reduces to one replacement.
pub proof fn lemma_apply_single_anchor(c: Seq<char>, m: Seq<char>, v: Seq<char>)
    ensures
        spec_apply_anchors(c, seq![m], seq![v]) == spec_replace(c, m, v),
{
    assert(seq![m].skip(1) =~= Seq::<Seq<char>>::empty());
    assert(seq![v].skip(1) =~= Seq::<Seq<char>>::empty());
    assert(spec_apply_anchors(
        spec_replace(c, m, v),
        Seq::<Seq<char>>::empty(),
        Seq::<Seq<char>>::empty(),
    ) == spec_replace(c, m, v));
}

/// Empty content stays empty under substitution, whatever the anchors
/// produce.
pub proof fn lemma_apply_anchors_empty(ms: Seq<Seq<char>>, vs: Seq<Seq<char>>)
    ensures
        spec_apply_anchors(Seq::<char>::empty(), ms, vs) == Seq::<char>::empty(),
    decreases ms.len(),
{
    if ms.len() > 0 {
        assert(spec_replace(Seq::<char>::empty(), ms[0], vs[0]) == Seq::<char>::empty());
        lemma_apply_anchors_empty(ms.skip(1), vs.skip(1));
    }
}

impl<C> Server<C> {
    /// The configured bind address.
    pub closed spec fn spec_address(self) -> Seq<char> {
        self.ip_address@
    }

    /// The configured TCP port.
    pub closed spec fn spec_port(self) -> u32 {
        self.tcp_port
    }

    /// Whether per-request logging is on.
    pub closed spec fn spec_debug(self) -> bool {
        self.debug
    }

    /// The configured root directory.
    pub closed spec fn spec_root(self) -> Seq<char> {
        self.root_dir@
    }

    /// The configured default page name.
    pub closed spec fn spec_page_name(self) -> Seq<char> {
        self.std_page@
    }

    /// The registered dynamic pages, in registration order.
    pub closed spec fn spec_pages(self) -> Seq<DynamicPage<C>> {
        self.dynamic_pages@
    }

    /// Creates a server for the given address and port, with the defaults:
    /// root is the current directory, debug off, default page `index.html`,
    /// no dynamic pages.
    pub fn new(ip_address: String, tcp_port: u32) -> (s: Server<C>)
        ensures
            s.spec_address() == ip_address@,
            s.spec_port() == tcp_port,
            !s.spec_debug(),
            s.spec_root() == "."@,
            s.spec_page_name() == "index.html"@,
            s.spec_pages() == Seq::<DynamicPage<C>>::empty(),
    {
        Server {
            ip_address,
            tcp_port,
            debug: false,
            root_dir: String::from_str("."),
            std_page: String::from_str("index.html"),
            dynamic_pages: Vec::new(),
        }
    }

    /// Turns per-request logging on or off.
    pub fn debug(&mut self, debug: bool)
        ensures
            final(self).spec_debug() == debug,
            final(self).spec_address() == old(self).spec_address(),
            final(self).spec_port() == old(self).spec_port(),
            final(self).spec_root() == old(self).spec_root(),
            final(self).spec_page_name() == old(self).spec_page_name(),
            final(self).spec_pages() == old(self).spec_pages(),
    {
        self.debug = debug;
    }

    /// Replaces the root directory, given the outcome of the host's
    /// metadata lookup for the path: whether it exists, and whether it is a
    /// directory.  An invalid path is reported and leaves the whole
    /// configuration unchanged.
    pub fn root_dir(&mut self, root_dir: String, exists: bool, is_dir: bool) -> (r: Result<
        (),
        String,
    >)
        ensures
            exists && is_dir ==> {
                &&& r is Ok
                &&& final(self).spec_root() == root_dir@
                &&& final(self).spec_address() == old(self).spec_address()
                &&& final(self).spec_port() == old(self).spec_port()
                &&& final(self).spec_debug() == old(self).spec_debug()
                &&& final(self).spec_page_name() == old(self).spec_page_name()
                &&& final(self).spec_pages() == old(self).spec_pages()
            },
            !exists ==> {
                &&& *final(self) == *old(self)
                &&& match r {
                    Result::Err(m) => m@ == "Does not exists. Not applied."@,
                    Result::Ok(_) => false,
                }
            },
            exists && !is_dir ==> {
                &&& *final(self) == *old(self)
                &&& match r {
                    Result::Err(m) => m@ == "Not a directory. Not applied."@,
                    Result::Ok(_) => false,
                }
            },
    {
        if exists {
            if is_dir {
                self.root_dir = root_dir;
                Result::Ok(())
            } else {
                Result::Err(String::from_str("Not a directory. Not applied."))
            }
        } else {
            Result::Err(String::from_str("Does not exists. Not applied."))
        }
    }

    /// Replaces the default page file name.
    pub fn std_page(&mut self, std_page: String)
        ensures
            final(self).spec_page_name() == std_page@,
            final(self).spec_address() == old(self).spec_address(),
            final(self).spec_port() == old(self).spec_port(),
            final(self).spec_debug() == old(self).spec_debug(),
            final(self).spec_root() == old(self).spec_root(),
            final(self).spec_pages() == old(self).spec_pages(),
    {
        self.std_page = std_page;
    }

    /// Appends a dynamic page to the registry.  No uniqueness check: of two
    /// pages with one URL, only the first ever matches.
    pub fn insert_dynamic_page(&mut self, dynamic_page: DynamicPage<C>)
        ensures
            final(self).spec_pages() == old(self).spec_pages().push(dynamic_page),
            final(self).spec_address() == old(self).spec_address(),
            final(self).spec_port() == old(self).spec_port(),
            final(self).spec_debug() == old(self).spec_debug(),
            final(self).spec_root() == old(self).spec_root(),
            final(self).spec_page_name() == old(self).spec_page_name(),
    {
        self.dynamic_pages.push(dynamic_page);
    }

    /// The bind address, for the host's listener.
    pub fn address(&self) -> (r: &String)
        ensures
            r@ == self.spec_address(),
    {
        &self.ip_address
    }

    /// The TCP port, for the host's listener.
    pub fn port(&self) -> (r: u32)
        ensures
            r == self.spec_port(),
    {
        self.tcp_port
    }

    /// Whether per-request logging is on.
    pub fn is_debug(&self) -> (r: bool)
        ensures
            r == self.spec_debug(),
    {
        self.debug
    }

    /// The configured root directory, for the host's filesystem lookups.
    pub fn current_root_dir(&self) -> (r: &String)
        ensures
            r@ == self.spec_root(),
    {
        &self.root_dir
    }

    /// The configured default page name.
    pub fn current_std_page(&self) -> (r: &String)
        ensures
            r@ == self.spec_page_name(),
    {
        &self.std_page
    }

    /// Index of the first registered page whose URL equals `url`.
    fn find_page(&self, url: &String) -> (r: Option<usize>)
        ensures
            match r {
                Option::Some(i) => i < self.spec_pages().len() && spec_first_page(
                    self.spec_pages(),
                    url@,
                ) == Option::Some(self.spec_pages()[i as int]),
                Option::None => spec_first_page(self.spec_pages(), url@) is None,
            },
    {
        let ghost pages = self.dynamic_pages@;
        let mut i: usize = 0;
        proof {
            assert(pages.skip(0) =~= pages);
        }
        loop
            invariant
                i <= pages.len(),
                pages == self.spec_pages(),
                spec_first_page(pages, url@) == spec_first_page(pages.skip(i as int), url@),
            decreases pages.len() - i,
        {
            if i == self.dynamic_pages.len() {
                return Option::None;
            }
            proof {
                assert(pages.skip(i as int)[0] == pages[i as int]);
            }
            if self.dynamic_pages[i].url.eq(url) {
                return Option::Some(i);
            }
            proof {
                assert(pages.skip(i as int).skip(1) =~= pages.skip(i as int + 1));
            }
            i += 1;
        }
    }
}

impl<C: PageCallback> Server<C> {
    /// Computes the response for one request, given the requested URL and
    /// what the host's file read returned.  The status reports only whether
    /// the read succeeded.  When the first registered page for the URL
    /// exists, the loaded bytes are decoded, each anchor whose marker
    /// occurs has its callback's output substituted for every occurrence of
    /// the marker, in order, and the text is re-encoded; otherwise the
    /// bytes pass through untouched.  A failed read always yields an empty
    /// body.
    pub fn respond(&self, url: &String, file: Option<Vec<u8>>) -> (r: (HttpStatus, Vec<u8>))
        ensures
            (r.0 == HttpStatus::Okay) <==> (file is Some),
            spec_first_page(self.spec_pages(), url@) is None ==> r.1@ == spec_file_bytes(file),
            match spec_first_page(self.spec_pages(), url@) {
                Option::Some(page) => spec_dynamic_body(
                    spec_file_bytes(file),
                    spec_markers(page.anchors@),
                    r.1@,
                ),
                Option::None => true,
            },
            file is None ==> r.1@ == Seq::<u8>::empty(),
    {
        let ghost file0 = spec_file_bytes(file);
        let ghost file_present = file is Some;
        let (status, body) = match file {
            Option::Some(f) => (HttpStatus::Okay, f),
            Option::None => (HttpStatus::NotFound, Vec::new()),
        };
        match self.find_page(url) {
            Option::None => (status, body),
            Option::Some(pi) => {
                let page = &self.dynamic_pages[pi];
                let ghost markers = spec_markers(page.anchors@);
                let decoded = lossy_string(&body);
                let mut content = chars_of(decoded.as_str());
                let ghost content0 = content@;
                let ghost mut vals: Seq<Seq<char>> = Seq::empty();
                proof {
                    assert(markers.take(0) =~= Seq::<Seq<char>>::empty());
                }
                let mut k: usize = 0;
                while k < page.anchors.len()
                    invariant
                        k <= page.anchors@.len(),
                        markers == spec_markers(page.anchors@),
                        vals.len() == k,
                        content@ == spec_apply_anchors(content0, markers.take(k as int), vals),
                    decreases page.anchors@.len() - k,
                {
                    let marker_chars = chars_of(page.anchors[k].marker.as_str());
                    proof {
                        assert(markers[k as int] == page.anchors@[k as int].marker@);
                        assert(markers.take(k as int + 1) =~= markers.take(k as int).push(
                            markers[k as int],
                        ));
                    }
                    if contains_chars(&content, &marker_chars) {
                        let val = page.anchors[k].function.produce();
                        let val_chars = chars_of(val.as_str());
                        proof {
                            lemma_apply_anchors_push(
                                content0,
                                markers.take(k as int),
                                vals,
                                markers[k as int],
                                val_chars@,
                            );
                        }
                        content = replace_chars(&content, &marker_chars, &val_chars);
                        proof {
                            vals = vals.push(val_chars@);
                        }
                    } else {
                        proof {
                            lemma_apply_anchors_push(
                                content0,
                                markers.take(k as int),
                                vals,
                                markers[k as int],
                                Seq::<char>::empty(),
                            );
                            crate::text::lemma_replace_absent_marker(
                                content@,
                                marker_chars@,
                                Seq::<char>::empty(),
                            );
                            vals = vals.push(Seq::<char>::empty());
                        }
                    }
                    k += 1;
                }
                proof {
                    assert(markers.take(markers.len() as int) =~= markers);
                }
                let out_string = string_of(&content);
                let out_bytes = encode_string(out_string.as_str());
                proof {
                    if !file_present {
                        assert(body@ =~= Seq::<u8>::empty());
                    }
                    assert(body@ == file0);
                    assert(content0 == lossy_decode_of(file0));
                    assert(vals.len() == markers.len() && out_bytes@ == encode_utf8(
                        spec_apply_anchors(lossy_decode_of(file0), markers, vals),
                    ));
                    assert(spec_dynamic_body(file0, markers, out_bytes@));
                    if !file_present {
                        assert(encode_utf8(Seq::<char>::empty()) =~= Seq::<u8>::empty());
                        assert(content0 == Seq::<char>::empty());
                        lemma_apply_anchors_empty(markers, vals);
                        assert(out_bytes@ =~= Seq::<u8>::empty());
                    }
                }
                (status, out_bytes)
            },
        }
    }
}

} // verus!
