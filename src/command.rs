//! A command: a name and its arguments, as the store receives them.
use vstd::prelude::*;
use crate::argument::{redis_args_of_str, wire_bytes, Argument};
use vstd::utf8::encode_utf8;

verus! {

/// A command for the store.
#[derive(Debug, PartialEq)]
pub struct Command {
    pub name: String,
    pub args: Vec<Argument>,
}

/// The bytes of each part of a command, as they go to the store: the name,
/// then each argument in order.
pub open spec fn command_wire(c: Command) -> Seq<Seq<u8>> {
    seq![encode_utf8(c.name@)] + c.args@.map_values(|a: Argument| wire_bytes(a@))
}

pub open spec fn byte_views(v: Seq<Vec<u8>>) -> Seq<Seq<u8>> {
    v.map_values(|b: Vec<u8>| b@)
}

impl Command {
    /// A command may be dispatched only with a non-empty name.
    pub open spec fn wf(&self) -> bool {
        self.name@.len() > 0
    }

    /// The command's name.
    pub fn name_str(&self) -> (r: &str)
        ensures
            r@ == self.name@,
    {
        self.name.as_str()
    }

    /// The parts of the command as the store receives them (see
    /// `command_wire`).
    pub fn wire_args(&self) -> (r: Vec<Vec<u8>>)
        ensures
            byte_views(r@) == command_wire(*self),
    {
        let mut r = redis_args_of_str(self.name.as_str());
        let n = self.args.len();
        let mut i: usize = 0;
        while i < n
            invariant
                i <= n,
                n == self.args@.len(),
                byte_views(r@) == seq![encode_utf8(self.name@)] + self.args@.take(
                    i as int,
                ).map_values(|a: Argument| wire_bytes(a@)),
            decreases n - i,
        {
            let mut one = self.args[i].to_redis_args();
            let bytes = one.pop().unwrap();
            assert(bytes@ == wire_bytes(self.args@[i as int]@));
            let ghost before = r@;
            r.push(bytes);
            assert(byte_views(r@) =~= byte_views(before).push(bytes@));
            assert(self.args@.take(i + 1) =~= self.args@.take(i as int).push(self.args@[i as int]));
            assert(self.args@.take(i + 1).map_values(|a: Argument| wire_bytes(a@)) =~= self.args@.take(
                i as int,
            ).map_values(|a: Argument| wire_bytes(a@)).push(wire_bytes(self.args@[i as int]@)));
            assert(byte_views(r@) =~= seq![encode_utf8(self.name@)] + self.args@.take(
                i + 1,
            ).map_values(|a: Argument| wire_bytes(a@)));
            i += 1;
        }
        assert(self.args@.take(n as int) =~= self.args@);
        r
    }
}

} // verus!
