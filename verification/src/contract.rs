//! What a contract sees of the host: the chain's state, and the arguments
//! and results of the call in progress.
use vstd::prelude::*;
use vstd::string::StringSliceAdditionalSpecFns;
use crate::address::{Address, StorageKey};
use crate::magnitude::{
    lemma_be_value_bound, lemma_pow256_monotonic, lemma_pow256_widths, lemma_top_bit, pow256,
    signed_value_of, value_of_bytes,
};

verus! {

/// The chain as the contract code sees it.
///
/// A method that reads takes `&self`; one that may change what later reads
/// return takes `&mut self`, and promises nothing of the state it leaves.
pub trait ContractHookApi<BigInt, BigUint> {
    /// The account that owns the contract.
    spec fn owner(&self) -> Address;

    /// What an account holds.
    spec fn balance_of(&self, address: Address) -> BigUint;

    fn get_owner(&self) -> (owner: Address)
        ensures
            owner == self.owner(),
    ;

    fn get_caller(&self) -> Address;

    fn get_balance(&self, address: &Address) -> (balance: BigUint)
        ensures
            balance == self.balance_of(*address),
    ;

    /// What the owner of the contract holds.
    fn get_own_balance(&self) -> (balance: BigUint)
        ensures
            balance == self.balance_of(self.owner()),
    {
        self.get_balance(&self.get_owner())
    }

    fn storage_store(&mut self, key: &StorageKey, value: &Vec<u8>);

    fn storage_load(&self, key: &StorageKey) -> Vec<u8>;

    fn storage_store_bytes32(&mut self, key: &StorageKey, value: &[u8; 32]);

    fn storage_load_bytes32(&self, key: &StorageKey) -> [u8; 32];

    fn storage_store_big_uint(&mut self, key: &StorageKey, value: &BigUint);

    fn storage_load_big_uint(&self, key: &StorageKey) -> BigUint;

    fn storage_store_big_int(&mut self, key: &StorageKey, value: &BigInt);

    fn storage_load_big_int(&self, key: &StorageKey) -> BigInt;

    fn storage_store_i64(&mut self, key: &StorageKey, value: i64);

    fn storage_load_i64(&self, key: &StorageKey) -> Option<i64>;

    fn get_call_value_big_uint(&self) -> BigUint;

    fn send_tx(&mut self, to: &Address, amount: &BigUint, message: &str);

    fn async_call(&mut self, to: &Address, amount: &BigUint, data: &str);

    fn get_gas_left(&self) -> i64;

    fn sha256(&self, data: &Vec<u8>) -> [u8; 32];

    fn keccak256(&self, data: &Vec<u8>) -> [u8; 32];
}

/// What the number of arguments of a call says of the call.
#[derive(Clone, Copy, Debug, PartialEq, Eq, Structural)]
pub enum ArgumentCheck {
    /// As many arguments as the endpoint takes.
    Exact,
    /// One more than the endpoint takes: the last one names a callback.
    WithCallback,
    /// Any other number.
    Wrong,
}

/// What `nr_args` arguments say of a call to an endpoint that takes
/// `expected`. An endpoint takes no negative number of arguments: against
/// one every call is wrong.
pub open spec fn argument_check(nr_args: int, expected: int) -> ArgumentCheck {
    if expected >= 0 && nr_args == expected + 1 {
        ArgumentCheck::WithCallback
    } else if nr_args == expected {
        ArgumentCheck::Exact
    } else {
        ArgumentCheck::Wrong
    }
}

/// What `nr_args` arguments say of a call to an endpoint that takes
/// `expected`.
pub fn check_argument_count(nr_args: i32, expected: i32) -> (check: ArgumentCheck)
    ensures
        check == argument_check(nr_args as int, expected as int),
{
    if 0 <= expected && expected < i32::MAX && nr_args == expected + 1 {
        ArgumentCheck::WithCallback
    } else if nr_args == expected {
        ArgumentCheck::Exact
    } else {
        ArgumentCheck::Wrong
    }
}

/// The text that a call with a wrong number of arguments is refused with.
pub open spec fn wrong_number_of_arguments() -> Seq<u8> {
    "wrong number of arguments".spec_bytes()
}

/// The call in progress: its arguments, what it has returned so far, and the
/// error it was ended with. Only generated endpoint code uses this.
pub trait ContractIOApi<BigInt, BigUint> {
    /// The arguments of the call, each as its bytes.
    spec fn arguments(&self) -> Seq<Seq<u8>>;

    /// The byte sequences returned so far.
    spec fn finished(&self) -> Seq<Seq<u8>>;

    /// The message of the error that was signalled, if one was.
    spec fn signalled(&self) -> Option<Seq<u8>>;

    /// An argument as a 32-byte word.
    spec fn argument_word(&self, index: int) -> [u8; 32];

    fn get_num_arguments(&self) -> (count: i32)
        ensures
            count == self.arguments().len(),
    ;

    /// Checks the number of arguments of the call against the number that the
    /// endpoint takes.
    ///
    /// One argument more is accepted: it names a callback and is returned as
    /// it came. With any other number the call is refused: the error is
    /// signalled and the result is `false`.
    fn check_num_arguments(&mut self, expected: i32) -> (accepted: bool)
        ensures
            final(self).arguments() == old(self).arguments(),
            accepted == (argument_check(old(self).arguments().len() as int, expected as int)
                != ArgumentCheck::Wrong),
            match argument_check(old(self).arguments().len() as int, expected as int) {
                ArgumentCheck::WithCallback => {
                    &&& final(self).finished() == old(self).finished().push(
                        old(self).arguments().last(),
                    )
                    &&& final(self).signalled() == old(self).signalled()
                },
                ArgumentCheck::Exact => {
                    &&& final(self).finished() == old(self).finished()
                    &&& final(self).signalled() == old(self).signalled()
                },
                ArgumentCheck::Wrong => {
                    &&& final(self).finished() == old(self).finished()
                    &&& final(self).signalled() == Some(wrong_number_of_arguments())
                },
            },
    {
        let nr_args = self.get_num_arguments();
        match check_argument_count(nr_args, expected) {
            ArgumentCheck::WithCallback => {
                let callback_name_arg = self.get_argument_vec(nr_args - 1);
                self.finish_vec(&callback_name_arg);
                true
            },
            ArgumentCheck::Wrong => {
                self.signal_error("wrong number of arguments");
                false
            },
            ArgumentCheck::Exact => true,
        }
    }

    fn check_not_payable(&self) -> bool;

    fn get_argument_vec(&self, arg_index: i32) -> (argument: Vec<u8>)
        requires
            0 <= arg_index < self.arguments().len(),
        ensures
            argument@ == self.arguments()[arg_index as int],
    ;

    fn get_argument_bytes32(&self, arg_index: i32) -> (word: [u8; 32])
        requires
            0 <= arg_index < self.arguments().len(),
        ensures
            word == self.argument_word(arg_index as int),
    ;

    fn get_argument_address(&self, arg_index: i32) -> (address: Address)
        requires
            0 <= arg_index < self.arguments().len(),
        ensures
            address.bytes == self.argument_word(arg_index as int),
    {
        Address { bytes: self.get_argument_bytes32(arg_index) }
    }

    fn get_argument_big_int(&self, arg_id: i32) -> BigInt;

    fn get_argument_big_uint(&self, arg_id: i32) -> BigUint;

    fn get_argument_i64(&self, arg_id: i32) -> i64;

    fn finish_vec(&mut self, v: &Vec<u8>)
        ensures
            final(self).arguments() == old(self).arguments(),
            final(self).finished() == old(self).finished().push(v@),
            final(self).signalled() == old(self).signalled(),
    ;

    fn finish_bytes32(&mut self, bytes: &[u8; 32]);

    fn finish_big_int(&mut self, b: &BigInt);

    fn finish_big_uint(&mut self, b: &BigUint);

    fn finish_i64(&mut self, value: i64);

    /// Ends the call with an error whose message is `message`.
    fn signal_error(&mut self, message: &str)
        ensures
            final(self).arguments() == old(self).arguments(),
            final(self).finished() == old(self).finished(),
            final(self).signalled() == Some(message.spec_bytes()),
    {
        self.signal_error_raw(message.as_bytes());
    }

    fn signal_error_raw(&mut self, message: &[u8])
        ensures
            final(self).arguments() == old(self).arguments(),
            final(self).finished() == old(self).finished(),
            final(self).signalled() == Some(message@),
    ;

    fn write_log(&mut self, topics: &[[u8; 32]], data: &[u8]);
}

/// How a debugger calls a contract: by the name of an endpoint.
pub trait CallableContract {
    fn call(&self, fn_name: &'static str);

    /// A contract of its own in the same state, for the debugger to call.
    fn clone_contract(&self) -> Box<Self> where Self: Sized;
}

/// The bytes of `argument` as a 32-byte word: its first 32 bytes, with zero
/// bytes behind where it is shorter.
pub open spec fn word_bytes(argument: Seq<u8>) -> Seq<u8> {
    Seq::new(
        32,
        |i: int|
            if i < argument.len() {
                argument[i]
            } else {
                0u8
            },
    )
}

/// A call held in local memory: arguments that were set when it was made,
/// and a record of what the contract returned and signalled. Big numbers
/// cross this boundary as the bytes of their top-level form.
pub struct CallData {
    arguments: Vec<Vec<u8>>,
    finished: Vec<Vec<u8>>,
    signalled: Option<Vec<u8>>,
    logs: Vec<LogEntry>,
}

/// One entry of the log that a call writes: its topics and its data.
#[derive(Debug)]
pub struct LogEntry {
    pub topics: Vec<[u8; 32]>,
    pub data: Vec<u8>,
}

/// The native integer that `bytes` denote in two's complement, most
/// significant byte first; zero where there are more than eight of them.
pub open spec fn native_of(bytes: Seq<u8>) -> i64 {
    if bytes.len() <= 8 {
        signed_value_of(bytes) as i64
    } else {
        0
    }
}

/// Up to eight bytes denote, in two's complement, an integer that a native
/// one holds.
pub proof fn lemma_native_range(bytes: Seq<u8>)
    requires
        bytes.len() <= 8,
    ensures
        i64::MIN <= signed_value_of(bytes) <= i64::MAX,
        native_of(bytes) == signed_value_of(bytes),
{
    lemma_pow256_widths();
    lemma_pow256_monotonic(bytes.len(), 8);
    lemma_be_value_bound(bytes);
    if bytes.len() > 0 {
        lemma_top_bit(bytes);
    }
}

/// The native integer that up to eight bytes denote in two's complement.
fn native_from_bytes(bytes: &Vec<u8>) -> (value: i64)
    requires
        bytes@.len() <= 8,
    ensures
        value == native_of(bytes@),
{
    proof {
        lemma_native_range(bytes@);
        lemma_pow256_widths();
        lemma_be_value_bound(bytes@);
        lemma_pow256_monotonic(bytes@.len(), 8);
        if bytes@.len() > 0 {
            lemma_top_bit(bytes@);
        }
    }
    let magnitude = value_of_bytes(bytes.as_slice());
    if bytes.len() == 0 || bytes[0] < 128 {
        magnitude as i64
    } else if bytes.len() == 8 {
        (magnitude - 0x8000_0000_0000_0000) as i64 + i64::MIN
    } else {
        let mut weight: u64 = 1;
        let mut i: usize = 0;
        while i < bytes.len()
            invariant
                i <= bytes@.len() < 8,
                weight == pow256(i as nat),
            decreases bytes@.len() - i,
        {
            proof {
                lemma_pow256_monotonic((i + 1) as nat, 7);
                reveal_with_fuel(pow256, 8);
            }
            weight = weight * 256;
            i += 1;
        }
        proof {
            lemma_pow256_monotonic(bytes@.len(), 7);
            reveal_with_fuel(pow256, 8);
        }
        magnitude as i64 - weight as i64
    }
}

/// The arguments that a call offers: as many of `given` as the interface
/// can count.
pub open spec fn offered(given: Seq<Seq<u8>>) -> Seq<Seq<u8>> {
    if given.len() <= i32::MAX {
        given
    } else {
        given.take(i32::MAX as int)
    }
}

impl CallData {
    /// A call with the given arguments, which has returned nothing yet.
    pub fn new(arguments: Vec<Vec<u8>>) -> (data: Self)
        ensures
            data.arguments() == offered(arguments@.map_values(|argument: Vec<u8>| argument@)),
            data.finished() == Seq::<Seq<u8>>::empty(),
            data.signalled() is None,
    {
        let data = CallData { arguments, finished: Vec::new(), signalled: None, logs: Vec::new() };
        assert(data.finished() =~= Seq::<Seq<u8>>::empty());
        data
    }

    /// The byte sequences returned so far, in order.
    pub fn results(&self) -> (results: &Vec<Vec<u8>>)
        ensures
            results@.map_values(|result: Vec<u8>| result@) == self.finished(),
    {
        &self.finished
    }

    /// The message of the error that was signalled, if one was.
    pub fn error(&self) -> (error: &Option<Vec<u8>>)
        ensures
            match error {
                Some(message) => self.signalled() == Some(message@),
                None => self.signalled() is None,
            },
    {
        &self.signalled
    }

    /// What the call has logged so far, in order: for each entry its topics
    /// and its data.
    pub closed spec fn logged(&self) -> Seq<(Seq<[u8; 32]>, Seq<u8>)> {
        self.logs@.map_values(|entry: LogEntry| (entry.topics@, entry.data@))
    }

    /// The entries logged so far, in order.
    pub fn logs(&self) -> (logs: &Vec<LogEntry>)
        ensures
            logs@.map_values(|entry: LogEntry| (entry.topics@, entry.data@)) == self.logged(),
    {
        &self.logs
    }

    /// The argument in place `index`; no bytes where the call has none
    /// there.
    pub open spec fn argument_or_empty(&self, index: int) -> Seq<u8> {
        if 0 <= index < self.arguments().len() {
            self.arguments()[index]
        } else {
            Seq::empty()
        }
    }

    /// The bytes of the argument in place `arg_id`; none where the call has
    /// no such argument.
    fn argument_bytes(&self, arg_id: i32) -> (bytes: Vec<u8>)
        ensures
            bytes@ == self.argument_or_empty(arg_id as int),
    {
        if 0 <= arg_id && arg_id < self.get_num_arguments() {
            self.arguments[arg_id as usize].clone()
        } else {
            Vec::new()
        }
    }

    /// Appends `bytes` to what the call has returned.
    fn finish(&mut self, bytes: Vec<u8>)
        ensures
            final(self).arguments() == old(self).arguments(),
            final(self).finished() == old(self).finished().push(bytes@),
            final(self).signalled() == old(self).signalled(),
            final(self).logged() == old(self).logged(),
    {
        self.finished.push(bytes);
        assert(self.finished() =~= old(self).finished().push(bytes@));
    }

    /// The first 32 bytes of an argument, zero-filled.
    fn word_of(argument: &Vec<u8>) -> (word: [u8; 32])
        ensures
            word@ == word_bytes(argument@),
    {
        let mut word = [0u8; 32];
        let mut i: usize = 0;
        while i < 32
            invariant
                i <= 32,
                forall|j: int| 0 <= j < i ==> word@[j] == word_bytes(argument@)[j],
            decreases 32 - i,
        {
            if i < argument.len() {
                word[i] = argument[i];
            } else {
                word[i] = 0;
            }
            i += 1;
        }
        assert(word@ =~= word_bytes(argument@));
        word
    }
}

impl ContractIOApi<Vec<u8>, Vec<u8>> for CallData {
    closed spec fn arguments(&self) -> Seq<Seq<u8>> {
        offered(self.arguments@.map_values(|argument: Vec<u8>| argument@))
    }

    closed spec fn finished(&self) -> Seq<Seq<u8>> {
        self.finished@.map_values(|result: Vec<u8>| result@)
    }

    closed spec fn signalled(&self) -> Option<Seq<u8>> {
        match self.signalled {
            Some(message) => Some(message@),
            None => None,
        }
    }

    closed spec fn argument_word(&self, index: int) -> [u8; 32] {
        choose|word: [u8; 32]| #[trigger] word@ == word_bytes(self.arguments@[index]@)
    }

    fn get_num_arguments(&self) -> (count: i32) {
        if self.arguments.len() <= i32::MAX as usize {
            self.arguments.len() as i32
        } else {
            i32::MAX
        }
    }

    /// A call held in memory carries no payment: the check passes.
    fn check_not_payable(&self) -> (accepted: bool)
        ensures
            accepted,
    {
        true
    }

    fn get_argument_vec(&self, arg_index: i32) -> (argument: Vec<u8>) {
        self.arguments[arg_index as usize].clone()
    }

    fn get_argument_bytes32(&self, arg_index: i32) -> (word: [u8; 32]) {
        let word = Self::word_of(&self.arguments[arg_index as usize]);
        proof {
            let chosen = self.argument_word(arg_index as int);
            assert(chosen@ == word@);
            assert(chosen =~= word);
        }
        word
    }

    /// The number as it crossed the boundary: the bytes of the argument;
    /// none where the call has no such argument.
    fn get_argument_big_int(&self, arg_id: i32) -> (number: Vec<u8>)
        ensures
            number@ == self.argument_or_empty(arg_id as int),
    {
        self.argument_bytes(arg_id)
    }

    /// The number as it crossed the boundary: the bytes of the argument;
    /// none where the call has no such argument.
    fn get_argument_big_uint(&self, arg_id: i32) -> (number: Vec<u8>)
        ensures
            number@ == self.argument_or_empty(arg_id as int),
    {
        self.argument_bytes(arg_id)
    }

    /// The argument read as a native integer in two's complement; zero
    /// where the call has no such argument or the argument has more than
    /// eight bytes.
    fn get_argument_i64(&self, arg_id: i32) -> (value: i64)
        ensures
            value == native_of(self.argument_or_empty(arg_id as int)),
    {
        let bytes = self.argument_bytes(arg_id);
        if bytes.len() <= 8 {
            native_from_bytes(&bytes)
        } else {
            0
        }
    }

    fn finish_vec(&mut self, v: &Vec<u8>) {
        self.finished.push(v.clone());
        assert(self.finished() =~= old(self).finished().push(v@));
    }

    /// Returns the 32 bytes of the word.
    fn finish_bytes32(&mut self, bytes: &[u8; 32])
        ensures
            final(self).arguments() == old(self).arguments(),
            final(self).finished() == old(self).finished().push(bytes@),
            final(self).signalled() == old(self).signalled(),
            final(self).logged() == old(self).logged(),
    {
        self.finish(vstd::slice::slice_to_vec(bytes.as_slice()));
    }

    /// Returns the number as it crosses the boundary: its bytes.
    fn finish_big_int(&mut self, b: &Vec<u8>)
        ensures
            final(self).arguments() == old(self).arguments(),
            final(self).finished() == old(self).finished().push(b@),
            final(self).signalled() == old(self).signalled(),
            final(self).logged() == old(self).logged(),
    {
        self.finish(b.clone());
    }

    /// Returns the number as it crosses the boundary: its bytes.
    fn finish_big_uint(&mut self, b: &Vec<u8>)
        ensures
            final(self).arguments() == old(self).arguments(),
            final(self).finished() == old(self).finished().push(b@),
            final(self).signalled() == old(self).signalled(),
            final(self).logged() == old(self).logged(),
    {
        self.finish(b.clone());
    }

    fn finish_i64(&mut self, value: i64) {
    }

    fn signal_error_raw(&mut self, message: &[u8]) {
        self.signalled = Some(vstd::slice::slice_to_vec(message));
    }

    /// Appends one entry to the log, and leaves the rest of the call as it
    /// is.
    fn write_log(&mut self, topics: &[[u8; 32]], data: &[u8])
        ensures
            final(self).logged() == old(self).logged().push((topics@, data@)),
            final(self).arguments() == old(self).arguments(),
            final(self).finished() == old(self).finished(),
            final(self).signalled() == old(self).signalled(),
    {
        let entry = LogEntry {
            topics: vstd::slice::slice_to_vec(topics),
            data: vstd::slice::slice_to_vec(data),
        };
        self.logs.push(entry);
        assert(self.logged() =~= old(self).logged().push((topics@, data@)));
    }
}

} // verus!
