//! The sites behind a proxy, and the page that lists them.

use vstd::prelude::*;
use vstd::utf8::*;

use crate::text::append;

verus! {

/// A site: what it is called, the path it is served under and the address it runs at.
#[derive(Debug, PartialEq, Eq)]
pub struct Server {
    pub name: String,
    pub path: String,
    pub addr: String,
    /// Whether the site is left out of the home page.
    pub hidden: bool,
    /// Whether the site is reached over TLS.
    pub secure: bool,
}

impl Default for Server {
    fn default() -> (s: Self)
        ensures
            s.name@ == Seq::<char>::empty(),
            s.path@ == Seq::<char>::empty(),
            s.addr@ == Seq::<char>::empty(),
            !s.hidden,
            !s.secure,
    {
        Server {
            name: String::new(),
            path: String::new(),
            addr: String::new(),
            hidden: false,
            secure: false,
        }
    }
}

impl Server {
    /// A site without a name, a path or an address.
    pub fn new() -> (s: Self)
        ensures
            s.name@ == Seq::<char>::empty(),
            s.path@ == Seq::<char>::empty(),
            s.addr@ == Seq::<char>::empty(),
            !s.hidden,
            !s.secure,
    {
        Self::default()
    }

    /// The site with another name.
    pub fn name(self, name: String) -> (s: Self)
        ensures
            s == (Server { name, ..self }),
    {
        Server { name, ..self }
    }

    /// The site under another path.
    pub fn path(self, path: String) -> (s: Self)
        ensures
            s == (Server { path, ..self }),
    {
        Server { path, ..self }
    }

    /// The site, hidden from the home page or not.
    pub fn hidden(self, hidden: bool) -> (s: Self)
        ensures
            s == (Server { hidden, ..self }),
    {
        Server { hidden, ..self }
    }

    /// The site, reached over TLS or not.
    pub fn secure(self, secure: bool) -> (s: Self)
        ensures
            s == (Server { secure, ..self }),
    {
        Server { secure, ..self }
    }

    /// The link to the site on the home page; nothing for a hidden site.
    pub open spec fn link(self) -> Seq<char> {
        if self.hidden {
            Seq::empty()
        } else {
            "<a href=\"./"@ + self.path@ + "\">"@ + self.name@ + "</a>"@
        }
    }

    /// The link to the site on the home page; nothing for a hidden site.
    pub fn to_link(&self) -> (link: String)
        ensures
            link@ == self.link(),
    {
        if self.hidden {
            String::new()
        } else {
            let mut link: String = "<a href=\"./".to_owned();
            link.append(self.path.as_str());
            link.append("\">");
            link.append(self.name.as_str());
            link.append("</a>");
            link
        }
    }

    /// The site has a name, a path and an address.
    pub open spec fn complete(self) -> bool {
        self.path@.len() > 0 && self.addr@.len() > 0 && self.name@.len() > 0
    }

    /// Whether the site has a name, a path and an address.
    pub fn is_complete(&self) -> (res: bool)
        ensures
            res == self.complete(),
    {
        !self.path.as_str().is_empty() && !self.addr.as_str().is_empty()
            && !self.name.as_str().is_empty()
    }

    /// The two have the same name, path and address.
    pub open spec fn same_site(self, other: Server) -> bool {
        self.name@ == other.name@ && self.path@ == other.path@ && self.addr@ == other.addr@
    }

    /// Whether the two have the same name, path and address.
    pub fn is_same_site(&self, other: &Server) -> (res: bool)
        ensures
            res == self.same_site(*other),
    {
        self.name == other.name && self.path == other.path && self.addr == other.addr
    }
}

/// A site has a link exactly if it is not hidden. The link leads to the path of the site and shows
/// its name, and nothing else of the site changes it.
pub proof fn only_a_shown_site_has_a_link(s: Server)
    ensures
        s.hidden <==> s.link() == Seq::<char>::empty(),
        !s.hidden ==> s.link() == "<a href=\"./"@ + s.path@ + "\">"@ + s.name@ + "</a>"@,
{
    reveal_strlit("</a>");
    if !s.hidden {
        assert(s.link().last() == "</a>"@.last());
    }
}

/// A site is complete exactly if none of its name, its path and its address is empty, and two are
/// the same site exactly if they agree in these three.
pub proof fn sites_go_by_name_path_and_address(s: Server, t: Server)
    ensures
        s.name@.len() == 0 || s.path@.len() == 0 || s.addr@.len() == 0 <==> !s.complete(),
        s.same_site(t) <==> s.name@ == t.name@ && s.path@ == t.path@ && s.addr@ == t.addr@,
{
}

/// A site known by its name alone.
#[derive(Debug, PartialEq, Eq)]
pub struct ServerInfo {
    pub name: String,
    pub addr: String,
    /// Whether the site is reached through a tunnel.
    pub tunnel: bool,
    /// Whether the site is reached over TLS.
    pub secure: bool,
}

impl ServerInfo {
    /// A site that is reached directly and without TLS.
    pub fn new(name: String, addr: String) -> (s: Self)
        ensures
            s == (ServerInfo { name, addr, tunnel: false, secure: false }),
    {
        ServerInfo { name, addr, tunnel: false, secure: false }
    }
}

/// The home page up to its links.
pub const HOME_HTML_START: &'static str =
    "\n<!DOCTYPE html>\n<html lang=\"en-US\">\n<head>\n<title>Rusty Proxy</title><meta charset=\"UTF-8\">\n<meta name=\"viewport content=\"width=device-width, initial-scale=1.0\"></head>\n<body>";

/// The home page from its links on.
pub const HOME_HTML_END: &'static str = "</body>\n</html>\n";

/// The bytes of the home page with `links` on it.
pub open spec fn home_html(links: Seq<char>) -> Seq<u8> {
    encode_utf8(HOME_HTML_START@) + encode_utf8(links) + encode_utf8(HOME_HTML_END@)
}

/// The links stand in the body of the home page, all of them and as they are, and the page around
/// them is always the same.
pub proof fn page_holds_its_links(links: Seq<char>)
    ensures
        home_html(links) == encode_utf8(
            "\n<!DOCTYPE html>\n<html lang=\"en-US\">\n<head>\n<title>Rusty Proxy</title><meta charset=\"UTF-8\">\n<meta name=\"viewport content=\"width=device-width, initial-scale=1.0\"></head>\n<body>"@,
        ) + encode_utf8(links) + encode_utf8("</body>\n</html>\n"@),
{
}

/// The bytes of the home page with `links` on it.
pub fn home_html_bytes(links: &str) -> (page: Vec<u8>)
    ensures
        page@ == home_html(links@),
{
    let mut page: Vec<u8> = Vec::new();
    append(&mut page, HOME_HTML_START.as_bytes());
    append(&mut page, links.as_bytes());
    append(&mut page, HOME_HTML_END.as_bytes());
    assert(page@ =~= home_html(links@));
    page
}

} // verus!
