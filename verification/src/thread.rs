//! The compositor thread's life, as the entry points see it.
//!
//! One thread owns the event loop and all protocol state. Everything else
//! talks to it by sending it a command, so no entry point ever blocks on the
//! compositor.

use vstd::prelude::*;
use vstd::string::StringExecFns;

use crate::error::{Error, IhsWlResult};

verus! {

/// A compositor thread that came up.
#[derive(Debug, PartialEq)]
pub struct Running {
    /// The thread has exited.
    pub finished: bool,
    pub socket_name: String,
}

/// The server of this process, if it was started.
#[derive(Debug)]
pub struct Server {
    pub running: Option<Running>,
}

/// What a thread just spawned came to.
#[derive(Debug)]
pub enum StartUp {
    /// It listens on this socket.
    Listening(String),
    /// It gave up, and says why.
    Failed(Error),
    /// It exited without a word.
    Exited,
}

/// Whether `e` says that no server runs, in these words.
pub open spec fn not_running(e: Error, words: Seq<char>) -> bool {
    e.code == IhsWlResult::ErrNotRunning.number() && e.message@ == words
}

impl Server {
    /// A compositor thread is up and has not exited.
    pub open spec fn is_up(self) -> bool {
        self.running is Some && !self.running->0.finished
    }

    /// Nothing was started.
    pub fn new() -> (server: Server)
        ensures
            server.running is None,
    {
        Server { running: None }
    }

    /// A start is asked for: refused while the thread is up (after a hot
    /// restart the server, its clients and their toplevels carry on). A
    /// thread that died is handed back to be reaped, and a new one may be
    /// spawned.
    pub fn start(&mut self) -> (r: Result<Option<Running>, Error>)
        ensures
            match r {
                Err(e) => old(self).is_up() && e.code == IhsWlResult::ErrAlreadyRunning.number()
                    && e.message@ == "server already running"@ && *final(self) == *old(self),
                Ok(dead) => !old(self).is_up() && dead == old(self).running
                    && final(self).running is None,
            },
    {
        if is_running(self) {
            return Err(
                Error::new(
                    IhsWlResult::ErrAlreadyRunning.code(),
                    String::from_str("server already running"),
                ),
            );
        }
        let dead = self.running.take();
        Ok(dead)
    }

    /// The spawned thread reported: from now on the server runs, or the
    /// start failed.
    pub fn started(&mut self, outcome: StartUp) -> (r: Result<(), Error>)
        ensures
            match outcome {
                StartUp::Listening(name) => r is Ok && final(self).is_up()
                    && final(self).running->0.socket_name@ == name@,
                StartUp::Failed(why) => r == Err::<(), Error>(why) && *final(self) == *old(self),
                StartUp::Exited => r is Err && r->Err_0.code == IhsWlResult::ErrInternal.number()
                    && r->Err_0.message@ == "compositor thread exited during start-up"@
                    && *final(self) == *old(self),
            },
    {
        match outcome {
            StartUp::Listening(socket_name) => {
                self.running = Some(Running { finished: false, socket_name });
                Ok(())
            },
            StartUp::Failed(why) => Err(why),
            StartUp::Exited => Err(
                Error::internal(String::from_str("compositor thread exited during start-up")),
            ),
        }
    }
}

fn no_server() -> (e: Error)
    ensures
        not_running(e, "server not running"@),
{
    Error::new(IhsWlResult::ErrNotRunning.code(), String::from_str("server not running"))
}

/// The server is stopped: its thread is handed back, to be told to quit and
/// joined. From here on nothing runs.
pub fn stop(server: &mut Server) -> (r: Result<Running, Error>)
    ensures
        final(server).running is None,
        match old(server).running {
            Some(running) => r == Ok::<Running, Error>(running),
            None => r is Err && not_running(r->Err_0, "server not running"@),
        },
{
    match server.running.take() {
        Some(running) => Ok(running),
        None => Err(no_server()),
    }
}

/// What `stop` reports once the thread was joined.
pub fn stopped(panicked: bool) -> (r: Result<(), Error>)
    ensures
        r is Err <==> panicked,
        r matches Err(e) ==> e.code == IhsWlResult::ErrInternal.number() && e.message@
            == "compositor thread panicked on shutdown"@,
{
    if panicked {
        Err(Error::internal(String::from_str("compositor thread panicked on shutdown")))
    } else {
        Ok(())
    }
}

/// A command was put on the thread's queue, which took it or not (`taken`):
/// what the sender hears.
pub fn send(server: &Server, taken: bool) -> (r: Result<(), Error>)
    ensures
        r is Ok <==> server.running is Some && taken,
        r matches Err(e) ==> if server.running is None {
            not_running(e, "server not running"@)
        } else {
            not_running(e, "compositor thread has exited"@)
        },
{
    if server.running.is_none() {
        return Err(no_server());
    }
    if taken {
        Ok(())
    } else {
        Err(
            Error::new(
                IhsWlResult::ErrNotRunning.code(),
                String::from_str("compositor thread has exited"),
            ),
        )
    }
}

/// Whether the compositor thread is up.
pub fn is_running(server: &Server) -> (up: bool)
    ensures
        up == server.is_up(),
        up <==> server.running is Some && !server.running->0.finished,
{
    match &server.running {
        Some(running) => !running.finished,
        None => false,
    }
}

/// The socket clients connect to, from start to stop.
pub fn socket_name(server: &Server) -> (name: Option<String>)
    ensures
        match server.running {
            Some(running) => name is Some && name->0@ == running.socket_name@,
            None => name is None,
        },
{
    match &server.running {
        Some(running) => Some(running.socket_name.clone()),
        None => None,
    }
}

/// The server is up between its thread's start and its exit; that none runs is
/// told by the code -5.
pub proof fn when_the_server_is_up(server: Server, e: Error, words: Seq<char>)
    ensures
        server.is_up() <==> server.running is Some && !server.running->0.finished,
        not_running(e, words) <==> e.code == -5 && e.message@ == words,
{
}

} // verus!
