//! What the server answers: the page chosen for a request line, and the
//! text of the response that carries it.

use vstd::prelude::*;
use vstd::string::StringExecFns;
use vstd::string::StringSliceAdditionalSpecFns;

verus! {

/// The pages the server knows.
#[derive(Clone, Copy, Debug, PartialEq, Eq, Structural)]
pub enum Page {
    /// The greeting, served at once.
    Hello,
    /// The greeting, served after a pause.
    Slow,
    /// The answer to every other request.
    NotFound,
}

impl Page {
    /// The page for a request line. Only the two known lines, letter for
    /// letter, lead anywhere.
    pub open spec fn of(line: Seq<char>) -> Page {
        if line == "GET / HTTP/1.1"@ {
            Page::Hello
        } else if line == "GET /sleep HTTP/1.1"@ {
            Page::Slow
        } else {
            Page::NotFound
        }
    }

    /// The status line a page is sent with.
    pub open spec fn status_text(self) -> Seq<char> {
        match self {
            Page::Hello | Page::Slow => "HTTP/1.1 200 OK"@,
            Page::NotFound => "HTTP/1.1 404 NOT FOUND"@,
        }
    }

    /// The name of the file that holds a page's body.
    pub open spec fn file_text(self) -> Seq<char> {
        match self {
            Page::Hello | Page::Slow => "hello.html"@,
            Page::NotFound => "404.html"@,
        }
    }

    /// The pause before a page is served, in seconds.
    pub open spec fn pause(self) -> nat {
        match self {
            Page::Slow => 5,
            _ => 0,
        }
    }

    /// Chooses the page for the first line of a request.
    pub fn route(request_line: &str) -> (page: Page)
        ensures
            page == Page::of(request_line@),
    {
        if same_text(request_line, "GET / HTTP/1.1") {
            Page::Hello
        } else if same_text(request_line, "GET /sleep HTTP/1.1") {
            Page::Slow
        } else {
            Page::NotFound
        }
    }

    /// The status line this page is sent with.
    pub fn status_line(&self) -> (s: &'static str)
        ensures
            s@ == self.status_text(),
    {
        match self {
            Page::Hello | Page::Slow => "HTTP/1.1 200 OK",
            Page::NotFound => "HTTP/1.1 404 NOT FOUND",
        }
    }

    /// The name of the file that holds this page's body.
    pub fn filename(&self) -> (s: &'static str)
        ensures
            s@ == self.file_text(),
    {
        match self {
            Page::Hello | Page::Slow => "hello.html",
            Page::NotFound => "404.html",
        }
    }

    /// The pause before this page is served, in seconds.
    pub fn delay_secs(&self) -> (secs: u64)
        ensures
            secs == self.pause(),
    {
        match self {
            Page::Slow => 5,
            _ => 0,
        }
    }
}

/// Whether two texts are the same, character for character.
pub fn same_text(a: &str, b: &str) -> (same: bool)
    ensures
        same == (a@ == b@),
{
    let x = a.as_bytes();
    let y = b.as_bytes();
    proof {
        vstd::utf8::encode_utf8_decode_utf8(a@);
        vstd::utf8::encode_utf8_decode_utf8(b@);
    }
    if x.len() != y.len() {
        return false;
    }
    let mut i: usize = 0;
    while i < x.len()
        invariant
            x@ == a.spec_bytes(),
            y@ == b.spec_bytes(),
            i <= x@.len() == y@.len(),
            forall|k: int| 0 <= k < i ==> x@[k] == y@[k],
        decreases x@.len() - i,
    {
        if x[i] != y[i] {
            return false;
        }
        i += 1;
    }
    assert(x@ =~= y@);
    true
}

/// The decimal digit for a number below ten.
pub open spec fn digit(d: nat) -> char {
    "0123456789"@[d as int]
}

/// A number written in decimal, without leading zeros.
pub open spec fn decimal(n: nat) -> Seq<char>
    decreases n,
{
    if n < 10 {
        seq![digit(n)]
    } else {
        decimal(n / 10).push(digit(n % 10))
    }
}

/// The text of a response: the status line, the length of the body in
/// bytes, an empty line, and the body.
pub open spec fn response_text(status_line: Seq<char>, length: nat, body: Seq<char>) -> Seq<char> {
    status_line + "\r\nContent-Length: "@ + decimal(length) + "\r\n\r\n"@ + body
}

/// Writes one decimal digit.
fn digit_str(d: usize) -> (s: &'static str)
    requires
        d < 10,
    ensures
        s@ == seq![digit(d as nat)],
{
    proof {
        reveal_strlit("0123456789");
        reveal_strlit("0");
        reveal_strlit("1");
        reveal_strlit("2");
        reveal_strlit("3");
        reveal_strlit("4");
        reveal_strlit("5");
        reveal_strlit("6");
        reveal_strlit("7");
        reveal_strlit("8");
        reveal_strlit("9");
    }
    let s = if d == 0 {
        "0"
    } else if d == 1 {
        "1"
    } else if d == 2 {
        "2"
    } else if d == 3 {
        "3"
    } else if d == 4 {
        "4"
    } else if d == 5 {
        "5"
    } else if d == 6 {
        "6"
    } else if d == 7 {
        "7"
    } else if d == 8 {
        "8"
    } else {
        "9"
    };
    assert(s@ =~= seq![digit(d as nat)]);
    s
}

/// Writes `n` in decimal.
pub fn to_decimal(n: usize) -> (s: String)
    ensures
        s@ == decimal(n as nat),
    decreases n,
{
    if n < 10 {
        String::from_str(digit_str(n))
    } else {
        let mut s = to_decimal(n / 10);
        s.append(digit_str(n % 10));
        assert(s@ =~= decimal(n as nat));
        s
    }
}

/// Builds the response that carries `contents` under `status_line`.
pub fn response(status_line: &str, contents: &str) -> (r: String)
    ensures
        r@ == response_text(status_line@, contents.spec_bytes().len(), contents@),
{
    let mut r = String::from_str(status_line);
    r.append("\r\nContent-Length: ");
    let length = to_decimal(contents.as_bytes().len());
    r.append(length.as_str());
    r.append("\r\n\r\n");
    r.append(contents);
    r
}

} // verus!
