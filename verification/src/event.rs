//! The normalized event record and its enumerations.

use vstd::prelude::*;
use vstd::string::StrSliceExecFns;
use vstd::string::StringExecFns;

verus! {

/// What happened to the filesystem object.
#[derive(Clone, Copy, PartialEq, Eq, Structural, Debug)]
pub enum What {
    Rename,
    Modify,
    Create,
    Destroy,
    Owner,
    Other,
}

/// What sort of filesystem object an event is about.
#[derive(Clone, Copy, PartialEq, Eq, Structural, Debug)]
pub enum Kind {
    Dir,
    File,
    HardLink,
    SymLink,
    Watcher,
    Other,
}

/// One filesystem event: a path, what happened to it, what it is, and
/// the nanoseconds since the Unix epoch at recognition time (zero when
/// the clock was unavailable).
#[derive(Debug)]
pub struct Event {
    pub path: String,
    pub what: What,
    pub kind: Kind,
    pub when: u128,
}

/// The mathematical model of an [`Event`]: the path as a character
/// sequence, the two enumerations, and the timestamp.
pub struct EventV {
    pub path: Seq<char>,
    pub what: What,
    pub kind: Kind,
    pub when: u128,
}

impl View for Event {
    type V = EventV;

    open spec fn view(&self) -> EventV {
        EventV { path: self.path@, what: self.what, kind: self.kind, when: self.when }
    }
}

impl Clone for Event {
    fn clone(&self) -> (r: Event)
        ensures
            r@ == self@,
    {
        Event { path: self.path.clone(), what: self.what, kind: self.kind, when: self.when }
    }
}

impl PartialEq for Event {
    fn eq(&self, other: &Event) -> (r: bool) {
        self.path == other.path && self.what == other.what && self.kind == other.kind
            && self.when == other.when
    }
}

impl vstd::std_specs::cmp::PartialEqSpecImpl for Event {
    open spec fn obeys_eq_spec() -> bool {
        true
    }

    open spec fn eq_spec(&self, other: &Event) -> bool {
        self@ == other@
    }
}

impl Event {
    /// An event with `what = Destroy` and `kind = Watcher` is the
    /// sentinel that marks the end of the stream.
    pub fn is_last(&self) -> (r: bool)
        ensures
            r == (self.what == What::Destroy && self.kind == Kind::Watcher),
    {
        self.what == What::Destroy && self.kind == Kind::Watcher
    }
}

/// The textual form of a [`What`]: a lowercase snake name.
pub open spec fn spec_what_text(w: What) -> Seq<char> {
    match w {
        What::Rename => "rename"@,
        What::Modify => "modify"@,
        What::Create => "create"@,
        What::Destroy => "destroy"@,
        What::Owner => "owner"@,
        What::Other => "other"@,
    }
}

/// The [`What`] a text denotes; any unknown text denotes `Other`.
pub open spec fn spec_what_of_text(s: Seq<char>) -> What {
    if s == "rename"@ {
        What::Rename
    } else if s == "modify"@ {
        What::Modify
    } else if s == "create"@ {
        What::Create
    } else if s == "destroy"@ {
        What::Destroy
    } else if s == "owner"@ {
        What::Owner
    } else {
        What::Other
    }
}

/// The textual form of a [`Kind`]: a lowercase snake name.
pub open spec fn spec_kind_text(k: Kind) -> Seq<char> {
    match k {
        Kind::Dir => "dir"@,
        Kind::File => "file"@,
        Kind::HardLink => "hard_link"@,
        Kind::SymLink => "sym_link"@,
        Kind::Watcher => "watcher"@,
        Kind::Other => "other"@,
    }
}

/// The [`Kind`] a text denotes; any unknown text denotes `Other`.
pub open spec fn spec_kind_of_text(s: Seq<char>) -> Kind {
    if s == "dir"@ {
        Kind::Dir
    } else if s == "file"@ {
        Kind::File
    } else if s == "hard_link"@ {
        Kind::HardLink
    } else if s == "sym_link"@ {
        Kind::SymLink
    } else if s == "watcher"@ {
        Kind::Watcher
    } else {
        Kind::Other
    }
}

/// Character-by-character string equality.
pub fn str_eq(a: &str, b: &str) -> (r: bool)
    ensures
        r == (a@ == b@),
{
    let a_len = a.unicode_len();
    let b_len = b.unicode_len();
    if a_len != b_len {
        return false;
    }
    let mut i: usize = 0;
    while i < a_len
        invariant
            i <= a_len,
            a_len == a@.len(),
            b_len == b@.len(),
            a_len == b_len,
            forall|j: int| 0 <= j < i ==> a@[j] == b@[j],
        decreases a_len - i,
    {
        if a.get_char(i) != b.get_char(i) {
            return false;
        }
        i = i + 1;
    }
    proof {
        assert(a@ =~= b@);
    }
    true
}

impl What {
    /// The lowercase snake name of this value.
    pub fn text(&self) -> (r: String)
        ensures
            r@ == spec_what_text(*self),
    {
        match self {
            What::Rename => String::from_str("rename"),
            What::Modify => String::from_str("modify"),
            What::Create => String::from_str("create"),
            What::Destroy => String::from_str("destroy"),
            What::Owner => String::from_str("owner"),
            What::Other => String::from_str("other"),
        }
    }

    /// Parse a textual form; any unknown text yields `Other`.
    pub fn from_text(s: &str) -> (r: What)
        ensures
            r == spec_what_of_text(s@),
    {
        if str_eq(s, "rename") {
            What::Rename
        } else if str_eq(s, "modify") {
            What::Modify
        } else if str_eq(s, "create") {
            What::Create
        } else if str_eq(s, "destroy") {
            What::Destroy
        } else if str_eq(s, "owner") {
            What::Owner
        } else {
            What::Other
        }
    }
}

impl Kind {
    /// The lowercase snake name of this value.
    pub fn text(&self) -> (r: String)
        ensures
            r@ == spec_kind_text(*self),
    {
        match self {
            Kind::Dir => String::from_str("dir"),
            Kind::File => String::from_str("file"),
            Kind::HardLink => String::from_str("hard_link"),
            Kind::SymLink => String::from_str("sym_link"),
            Kind::Watcher => String::from_str("watcher"),
            Kind::Other => String::from_str("other"),
        }
    }

    /// Parse a textual form; any unknown text yields `Other`.
    pub fn from_text(s: &str) -> (r: Kind)
        ensures
            r == spec_kind_of_text(s@),
    {
        if str_eq(s, "dir") {
            Kind::Dir
        } else if str_eq(s, "file") {
            Kind::File
        } else if str_eq(s, "hard_link") {
            Kind::HardLink
        } else if str_eq(s, "sym_link") {
            Kind::SymLink
        } else if str_eq(s, "watcher") {
            Kind::Watcher
        } else {
            Kind::Other
        }
    }
}

impl<'a> From<&'a str> for What {
    fn from(s: &'a str) -> (r: What) {
        What::from_text(s)
    }
}

impl<'a> vstd::std_specs::convert::FromSpecImpl<&'a str> for What {
    open spec fn obeys_from_spec() -> bool {
        true
    }

    open spec fn from_spec(s: &'a str) -> What {
        spec_what_of_text(s@)
    }
}

impl From<String> for What {
    fn from(s: String) -> (r: What) {
        What::from_text(s.as_str())
    }
}

impl vstd::std_specs::convert::FromSpecImpl<String> for What {
    open spec fn obeys_from_spec() -> bool {
        true
    }

    open spec fn from_spec(s: String) -> What {
        spec_what_of_text(s@)
    }
}

impl<'a> From<&'a str> for Kind {
    fn from(s: &'a str) -> (r: Kind) {
        Kind::from_text(s)
    }
}

impl<'a> vstd::std_specs::convert::FromSpecImpl<&'a str> for Kind {
    open spec fn obeys_from_spec() -> bool {
        true
    }

    open spec fn from_spec(s: &'a str) -> Kind {
        spec_kind_of_text(s@)
    }
}

impl From<String> for Kind {
    fn from(s: String) -> (r: Kind) {
        Kind::from_text(s.as_str())
    }
}

impl vstd::std_specs::convert::FromSpecImpl<String> for Kind {
    open spec fn obeys_from_spec() -> bool {
        true
    }

    open spec fn from_spec(s: String) -> Kind {
        spec_kind_of_text(s@)
    }
}

/// Parsing the textual form of a `What` yields the original value.
pub proof fn lemma_what_text_round_trip(w: What)
    ensures
        spec_what_of_text(spec_what_text(w)) == w,
{
    reveal_strlit("rename");
    reveal_strlit("modify");
    reveal_strlit("create");
    reveal_strlit("destroy");
    reveal_strlit("owner");
    reveal_strlit("other");
    assert(("rename"@)[0] == 'r');
    assert(("modify"@)[0] == 'm');
    assert(("create"@)[0] == 'c');
    assert(("destroy"@)[0] == 'd');
    assert(("owner"@)[0] == 'o');
    assert(("other"@)[0] == 'o');
    assert(("owner"@)[1] == 'w');
    assert(("other"@)[1] == 't');
}

/// Parsing the textual form of a `Kind` yields the original value.
pub proof fn lemma_kind_text_round_trip(k: Kind)
    ensures
        spec_kind_of_text(spec_kind_text(k)) == k,
{
    reveal_strlit("dir");
    reveal_strlit("file");
    reveal_strlit("hard_link");
    reveal_strlit("sym_link");
    reveal_strlit("watcher");
    reveal_strlit("other");
    assert(("dir"@)[0] == 'd');
    assert(("file"@)[0] == 'f');
    assert(("hard_link"@)[0] == 'h');
    assert(("sym_link"@)[0] == 's');
    assert(("watcher"@)[0] == 'w');
    assert(("other"@)[0] == 'o');
}

} // verus!
