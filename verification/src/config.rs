//! The server's configuration and the socket it listens on.

use vstd::prelude::*;
use vstd::string::StringExecFns;

use crate::error::Error;

verus! {

/// What the server is started with.
#[derive(Clone, Debug)]
pub struct Config {
    /// Socket to bind under the runtime directory; `None` picks the first
    /// free `wayland-ihs-N` when this process is itself a Wayland client,
    /// else `wayland-N`.
    pub socket_name: Option<String>,
}

impl Default for Config {
    fn default() -> (config: Self)
        ensures
            config.socket_name is None,
    {
        Config { socket_name: None }
    }
}

impl Config {
    /// The structure a caller starts the server with, checked: it is there, and
    /// as large as `need`, the one known here.
    pub fn check(given: bool, size: usize, need: usize) -> (r: Result<(), Error>)
        ensures
            match r {
                Ok(()) => given && size >= need,
                Err(e) => !(given && size >= need) && e.code
                    == crate::error::IhsWlResult::ErrInvalid.number() && e.message@ == if !given {
                    "config is null"@
                } else {
                    "config: struct_size too small"@
                },
            },
    {
        if !given {
            return Err(Error::invalid(String::from_str("config is null")));
        }
        if size < need {
            return Err(Error::invalid(String::from_str("config: struct_size too small")));
        }
        Ok(())
    }
}

/// How many names are tried when none is given.
pub const SOCKET_NAMES: u64 = 32;

/// What a bind of a socket name came to.
#[derive(Debug)]
pub enum Bind {
    Bound,
    /// Another server listens there, as the system words it.
    InUse(String),
    /// Any other failure, as the system words it.
    Failed(String),
}

/// The search for a socket to listen on.
#[derive(Debug)]
pub struct Binding {
    pub fixed: Option<String>,
    /// This process is a client of a Wayland server itself.
    pub nested: bool,
    pub next: u64,
}

/// What names picked by the server start with.
pub open spec fn prefix_for(nested: bool) -> Seq<char> {
    if nested {
        "wayland-ihs-"@
    } else {
        "wayland-"@
    }
}

/// The message for a name that could not be bound.
pub open spec fn bind_message(name: Seq<char>, why: Seq<char>) -> Seq<char> {
    "bind "@ + name + ": "@ + why
}

fn prefix(nested: bool) -> (s: &'static str)
    ensures
        s@ == prefix_for(nested),
{
    if nested {
        "wayland-ihs-"
    } else {
        "wayland-"
    }
}

impl Binding {
    pub open spec fn wf(self) -> bool {
        self.next < SOCKET_NAMES
    }

    /// The name to try now.
    pub open spec fn candidate(self) -> Seq<char> {
        match self.fixed {
            Some(name) => name@,
            None => prefix_for(self.nested) + crate::text::digits(self.next as nat),
        }
    }

    /// Start with the configured name, or with the first of the server's own.
    pub fn new(config: &Config, nested: bool) -> (b: Binding)
        ensures
            b.wf(),
            b.nested == nested,
            b.next == 0,
            match config.socket_name {
                Some(name) => b.fixed is Some && b.fixed->0@ == name@,
                None => b.fixed is None,
            },
    {
        let fixed = match &config.socket_name {
            Some(name) => Some(name.clone()),
            None => None,
        };
        Binding { fixed, nested, next: 0 }
    }

    /// The name to try now.
    pub fn name(&self) -> (s: String)
        requires
            self.wf(),
        ensures
            s@ == self.candidate(),
    {
        match &self.fixed {
            Some(name) => name.clone(),
            None => {
                let mut s = String::from_str(prefix(self.nested));
                s.append(crate::text::decimal(self.next).as_str());
                s
            },
        }
    }

    /// The name was tried. `Ok(true)`: listen on it; `Ok(false)`: try the
    /// next one. A name that was asked for is not replaced by another, and
    /// only a name in use is passed over.
    pub fn tried(&mut self, outcome: Bind) -> (step: Result<bool, Error>)
        requires
            old(self).wf(),
        ensures
            match outcome {
                Bind::Bound => step matches Ok(bound) && bound && *final(self) == *old(self),
                Bind::InUse(why) => if old(self).fixed is Some {
                    step matches Err(e) && e.code == crate::error::IhsWlResult::ErrIo.number()
                        && e.message@ == bind_message(old(self).candidate(), why@)
                        && *final(self) == *old(self)
                } else if old(self).next + 1 < SOCKET_NAMES {
                    step matches Ok(bound) && !bound && final(self).wf() && final(self).next
                        == old(self).next + 1 && final(self).fixed is None && final(self).nested
                        == old(self).nested
                } else {
                    step matches Err(e) && e.code == crate::error::IhsWlResult::ErrIo.number()
                        && e.message@ == "no free socket name "@ + prefix_for(old(self).nested)
                        + "0..31"@ && *final(self) == *old(self)
                },
                Bind::Failed(why) => step matches Err(e) && e.code
                    == crate::error::IhsWlResult::ErrIo.number() && e.message@ == bind_message(
                    old(self).candidate(),
                    why@,
                ) && *final(self) == *old(self),
            },
    {
        match outcome {
            Bind::Bound => Ok(true),
            Bind::Failed(why) => Err(self.failed(why.as_str())),
            Bind::InUse(why) => {
                if self.fixed.is_some() {
                    Err(self.failed(why.as_str()))
                } else if self.next + 1 < SOCKET_NAMES {
                    self.next = self.next + 1;
                    Ok(false)
                } else {
                    let mut s = String::from_str("no free socket name ");
                    s.append(prefix(self.nested));
                    s.append("0..31");
                    Err(Error::io(s))
                }
            },
        }
    }

    fn failed(&self, why: &str) -> (e: Error)
        requires
            self.wf(),
        ensures
            e.code == crate::error::IhsWlResult::ErrIo.number(),
            e.message@ == bind_message(self.candidate(), why@),
    {
        let mut s = String::from_str("bind ");
        s.append(self.name().as_str());
        s.append(": ");
        s.append(why);
        Error::io(s)
    }
}

/// A name picked by the server is "wayland-" and a number, or "wayland-ihs-"
/// and a number where this process is itself a client; no two numbers give the
/// same name, and a name that was asked for is tried as it is.
pub proof fn which_names_are_tried(a: Binding, b: Binding)
    ensures
        a.fixed is None && !a.nested ==> a.candidate() == "wayland-"@ + crate::text::digits(
            a.next as nat,
        ),
        a.fixed is None && a.nested ==> a.candidate() == "wayland-ihs-"@ + crate::text::digits(
            a.next as nat,
        ),
        a.fixed is Some ==> a.candidate() == a.fixed->0@,
        a.fixed is None && b.fixed is None && a.nested == b.nested && a.candidate()
            == b.candidate() ==> a.next == b.next,
        a.wf() <==> a.next < 32,
{
    if a.fixed is None && b.fixed is None && a.nested == b.nested && a.candidate()
        == b.candidate() {
        let p = prefix_for(a.nested);
        let da = crate::text::digits(a.next as nat);
        let db = crate::text::digits(b.next as nat);
        assert((p + da).skip(p.len() as int) =~= da);
        assert((p + db).skip(p.len() as int) =~= db);
        crate::text::decimal_digits_spell_the_number(a.next as nat);
        crate::text::decimal_digits_spell_the_number(b.next as nat);
    }
}

/// A failed bind is reported with the name and the system's own words.
pub proof fn a_failed_bind_names_the_socket(name: Seq<char>, why: Seq<char>)
    ensures
        bind_message(name, why) == "bind "@ + name + ": "@ + why,
{
}

} // verus!
