//! The client side of the transport contract: issue one request, await
//! exactly one matching response. Transport adapters implement `send` and
//! `receive`; the convenience call and the response helpers live here.

use vstd::prelude::*;

use crate::command::{CommandRequest, CommandResponse};
use crate::errors::NetworkError;

verus! {

/// A client that issues one request and awaits one matching response over
/// some transport. Callers keep a strict request-then-response discipline:
/// no second request before the first response is read.
pub trait Client {
    /// Sends one encoded request over the transport.
    fn send(&mut self, request: CommandRequest) -> Result<(), NetworkError>;

    /// Receives and decodes one response from the transport.
    fn receive(&mut self) -> Result<CommandResponse, NetworkError>;

    /// Sends one request and awaits its response.
    fn get(&mut self, request: CommandRequest) -> Result<CommandResponse, NetworkError> {
        match self.send(request) {
            Ok(_) => self.receive(),
            Err(e) => Err(e),
        }
    }
}

/// What stands after the last space of a line, if any space occurs in it.
pub open spec fn after_last_space(s: Seq<char>) -> Option<Seq<char>>
    decreases s.len(),
{
    if s.len() == 0 {
        None
    } else if s.last() == ' ' {
        Some(Seq::empty())
    } else {
        match after_last_space(s.drop_last()) {
            None => None,
            Some(t) => Some(t.push(s.last())),
        }
    }
}

proof fn lemma_after_last_space_at(s: Seq<char>, i: int)
    requires
        0 <= i < s.len(),
        s[i] == ' ',
        forall|j: int| i < j < s.len() ==> s[j] != ' ',
    ensures
        after_last_space(s) == Some(s.subrange(i + 1, s.len() as int)),
    decreases s.len(),
{
    if i == s.len() - 1 {
        assert(s.last() == ' ');
        assert(s.subrange(i + 1, s.len() as int) =~= Seq::<char>::empty());
    } else {
        assert(s.last() != ' ');
        lemma_after_last_space_at(s.drop_last(), i);
        assert(s.drop_last().subrange(i + 1, s.drop_last().len() as int).push(s.last()) =~= s
            .subrange(i + 1, s.len() as int));
    }
}

proof fn lemma_after_last_space_none(s: Seq<char>)
    requires
        forall|j: int| 0 <= j < s.len() ==> s[j] != ' ',
    ensures
        after_last_space(s) is None,
    decreases s.len(),
{
    if s.len() > 0 {
        lemma_after_last_space_none(s.drop_last());
    }
}

/// The word after the last space of a status line: the power figure of a
/// socket's state report. Lines without a space have no such word.
pub fn parse_response(response: &str) -> (r: Option<&str>)
    ensures
        match r {
            Some(s) => after_last_space(response@) == Some(s@),
            None => after_last_space(response@) is None,
        },
{
    let n = response.unicode_len();
    let mut i: usize = n;
    while i > 0
        invariant
            n == response@.len(),
            i <= n,
            forall|j: int| i <= j < n ==> response@[j] != ' ',
        decreases i,
    {
        if response.get_char(i - 1) == ' ' {
            let tail = response.substring_char(i, n);
            proof {
                lemma_after_last_space_at(response@, i - 1);
                assert(tail@ =~= response@.subrange(i as int, n as int));
            }
            return Some(tail);
        }
        i = i - 1;
    }
    proof {
        lemma_after_last_space_none(response@);
    }
    None
}

} // verus!
