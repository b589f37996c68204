//! The model of a contract method: what the annotations on a method say of
//! its role, its arguments and its implementation.
use vstd::prelude::*;

verus! {

/// Whether a method accepts payment, and in what.
#[derive(Debug)]
pub enum MethodPayableMetadata {
    NotPayable,
    Egld,
    SingleEsdtToken(String),
    AnyToken,
}

impl MethodPayableMetadata {
    pub fn is_payable(&self) -> (payable: bool)
        ensures
            payable == !(self is NotPayable),
    {
        !matches!(self, MethodPayableMetadata::NotPayable)
    }
}

impl Clone for MethodPayableMetadata {
    fn clone(&self) -> (copy: Self)
        ensures
            copy == *self,
    {
        match self {
            MethodPayableMetadata::NotPayable => MethodPayableMetadata::NotPayable,
            MethodPayableMetadata::Egld => MethodPayableMetadata::Egld,
            MethodPayableMetadata::SingleEsdtToken(token) => MethodPayableMetadata::SingleEsdtToken(
                token.clone(),
            ),
            MethodPayableMetadata::AnyToken => MethodPayableMetadata::AnyToken,
        }
    }
}

/// What an argument has to do with the payment that comes with a call.
#[derive(Clone, Copy, Debug, PartialEq, Eq, Structural)]
pub enum ArgPaymentMetadata {
    NotPayment,
    /// The argument receives the amount paid.
    Payment,
    /// The argument receives the token paid in.
    PaymentToken,
}

/// What the annotations say of one argument.
#[derive(Clone, Copy, Debug)]
pub struct ArgMetadata {
    pub payment: ArgPaymentMetadata,
    /// The argument takes all the arguments of the call that are left.
    pub var_args: bool,
}

/// One argument of a method.
#[derive(Debug)]
pub struct MethodArgument {
    pub name: String,
    pub metadata: ArgMetadata,
}

impl Clone for MethodArgument {
    fn clone(&self) -> (copy: Self)
        ensures
            copy == *self,
    {
        MethodArgument { name: self.name.clone(), metadata: self.metadata }
    }
}

#[derive(Debug)]
pub struct InitMetadata {
    pub payable: MethodPayableMetadata,
}

#[derive(Debug)]
pub struct EndpointMetadata {
    pub public_name: String,
    pub payable: MethodPayableMetadata,
}

#[derive(Debug)]
pub struct CallbackMetadata {
    pub callback_name: String,
}

/// How a method can be reached from outside the contract.
#[derive(Debug)]
pub enum PublicRole {
    /// The constructor.
    Init(InitMetadata),
    Endpoint(EndpointMetadata),
    Callback(CallbackMetadata),
    CallbackRaw,
    /// Not reachable from outside.
    Private,
}

/// How an implementation is generated from a method's annotations.
#[derive(Debug)]
#[allow(inconsistent_fields)]
pub enum AutoImpl {
    LegacyEvent { identifier: Vec<u8> },
    Event { identifier: String },
    StorageGetter { identifier: String },
    StorageSetter { identifier: String },
    StorageMapper { identifier: String },
    StorageIsEmpty { identifier: String },
    StorageClear { identifier: String },
    Module { impl_path: String },
}

#[derive(Debug)]
pub enum MethodImpl {
    /// Generated by the framework.
    Generated(AutoImpl),
    /// Written by the developer.
    Explicit,
    /// None: allowed in call proxies only.
    NoImplementation,
}

/// A method of a contract, a module or a call proxy.
#[derive(Debug)]
pub struct Method {
    pub docs: Vec<String>,
    pub public_role: PublicRole,
    pub name: String,
    pub method_args: Vec<MethodArgument>,
    pub output_names: Vec<String>,
    pub implementation: MethodImpl,
}

/// No argument before `end` has the payment role `role`.
pub open spec fn none_before(args: Seq<MethodArgument>, role: ArgPaymentMetadata, end: int) -> bool {
    forall|i: int| 0 <= i < end ==> (#[trigger] args[i]).metadata.payment != role
}

/// The place of the first argument with the payment role `role`.
pub open spec fn first_place_of_role(args: Seq<MethodArgument>, role: ArgPaymentMetadata) -> Option<
    int,
> {
    if exists|i: int| 0 <= i < args.len() && (#[trigger] args[i]).metadata.payment == role {
        Some(
            choose|i: int|
                0 <= i < args.len() && (#[trigger] args[i]).metadata.payment == role && none_before(
                    args,
                    role,
                    i,
                ),
        )
    } else {
        None
    }
}

/// The first argument with the payment role `role`.
pub open spec fn first_with_role(args: Seq<MethodArgument>, role: ArgPaymentMetadata) -> Option<
    MethodArgument,
> {
    match first_place_of_role(args, role) {
        Some(place) => Some(args[place]),
        None => None,
    }
}

impl Method {
    /// The method is payable by its role: a constructor and an endpoint as
    /// annotated, a callback always, a private method never.
    pub open spec fn payable(&self) -> bool {
        match self.public_role {
            PublicRole::Init(init_metadata) => !(init_metadata.payable is NotPayable),
            PublicRole::Endpoint(endpoint_metadata) => !(endpoint_metadata.payable is NotPayable),
            PublicRole::Callback(_) | PublicRole::CallbackRaw => true,
            PublicRole::Private => false,
        }
    }

    /// What the method accepts as payment.
    pub open spec fn payable_by(&self) -> MethodPayableMetadata {
        match self.public_role {
            PublicRole::Init(init_metadata) => init_metadata.payable,
            PublicRole::Endpoint(endpoint_metadata) => endpoint_metadata.payable,
            PublicRole::Callback(_) | PublicRole::CallbackRaw => MethodPayableMetadata::AnyToken,
            PublicRole::Private => MethodPayableMetadata::NotPayable,
        }
    }

    /// The name under which the method is exported.
    pub open spec fn exported_as(&self) -> Option<Seq<char>> {
        match self.public_role {
            PublicRole::Init(_) => Some("init"@),
            PublicRole::Endpoint(endpoint_metadata) => Some(endpoint_metadata.public_name@),
            _ => None,
        }
    }

    /// The place of the first argument with the payment role `role`: no
    /// argument before it has that role.
    pub fn place_of_role(&self, role: ArgPaymentMetadata) -> (place: Option<usize>)
        ensures
            match place {
                Some(index) => {
                    &&& index < self.method_args@.len()
                    &&& self.method_args@[index as int].metadata.payment == role
                    &&& none_before(self.method_args@, role, index as int)
                    &&& first_place_of_role(self.method_args@, role) == Some(index as int)
                },
                None => {
                    &&& none_before(self.method_args@, role, self.method_args@.len() as int)
                    &&& first_place_of_role(self.method_args@, role) is None
                },
            },
    {
        let args = &self.method_args;
        let mut i: usize = 0;
        while i < args.len()
            invariant
                i <= args.len(),
                args@ == self.method_args@,
                none_before(args@, role, i as int),
            decreases args.len() - i,
        {
            if args[i].metadata.payment == role {
                proof {
                    assert(args@[i as int].metadata.payment == role);
                    let first = choose|k: int|
                        0 <= k < args@.len() && (#[trigger] args@[k]).metadata.payment == role
                            && none_before(args@, role, k);
                    if first < i {
                        assert(args@[first].metadata.payment != role);
                    } else if first > i {
                        assert(args@[i as int].metadata.payment != role);
                    }
                }
                return Some(i);
            }
            i += 1;
        }
        None
    }

    /// The first argument with the payment role `role`.
    fn find_by_role(&self, role: ArgPaymentMetadata) -> (found: Option<MethodArgument>)
        ensures
            found == first_with_role(self.method_args@, role),
    {
        match self.place_of_role(role) {
            Some(index) => Some(self.method_args[index].clone()),
            None => None,
        }
    }

    /// The argument that receives the amount paid: the first one marked so.
    pub fn payment_arg(&self) -> (arg: Option<MethodArgument>)
        ensures
            arg == first_with_role(self.method_args@, ArgPaymentMetadata::Payment),
    {
        self.find_by_role(ArgPaymentMetadata::Payment)
    }

    /// The argument that receives the token paid in: the first one marked
    /// so.
    pub fn token_arg(&self) -> (arg: Option<MethodArgument>)
        ensures
            arg == first_with_role(self.method_args@, ArgPaymentMetadata::PaymentToken),
    {
        self.find_by_role(ArgPaymentMetadata::PaymentToken)
    }

    pub fn is_payable(&self) -> (payable: bool)
        ensures
            payable == self.payable(),
    {
        match &self.public_role {
            PublicRole::Init(init_metadata) => init_metadata.payable.is_payable(),
            PublicRole::Endpoint(endpoint_metadata) => endpoint_metadata.payable.is_payable(),
            PublicRole::Callback(_) | PublicRole::CallbackRaw => true,
            PublicRole::Private => false,
        }
    }

    pub fn payable_metadata(&self) -> (metadata: MethodPayableMetadata)
        ensures
            metadata == self.payable_by(),
    {
        match &self.public_role {
            PublicRole::Init(init_metadata) => init_metadata.payable.clone(),
            PublicRole::Endpoint(endpoint_metadata) => endpoint_metadata.payable.clone(),
            PublicRole::Callback(_) | PublicRole::CallbackRaw => MethodPayableMetadata::AnyToken,
            PublicRole::Private => MethodPayableMetadata::NotPayable,
        }
    }

    /// The name under which the method is exported: `init` for the
    /// constructor, the public name for an endpoint, none for any other
    /// method.
    pub fn endpoint_name(&self) -> (name: Option<String>)
        ensures
            match name {
                Some(text) => self.exported_as() == Some(text@),
                None => self.exported_as() is None,
            },
    {
        match &self.public_role {
            PublicRole::Init(_) => Some("init".to_owned()),
            PublicRole::Endpoint(endpoint_metadata) => Some(endpoint_metadata.public_name.clone()),
            _ => None,
        }
    }

    /// Some argument takes all the arguments of the call that are left.
    pub fn has_variable_nr_args(&self) -> (variable: bool)
        ensures
            variable == exists|i: int|
                0 <= i < self.method_args@.len() && (#[trigger] self.method_args@[i]).metadata.var_args,
    {
        let args = &self.method_args;
        let mut i: usize = 0;
        while i < args.len()
            invariant
                i <= args.len(),
                args@ == self.method_args@,
                forall|k: int| 0 <= k < i ==> !(#[trigger] args@[k]).metadata.var_args,
            decreases args.len() - i,
        {
            if args[i].metadata.var_args {
                assert(args@[i as int].metadata.var_args);
                return true;
            }
            i += 1;
        }
        false
    }

    /// The method stands for a module of the contract.
    pub fn is_module(&self) -> (module: bool)
        ensures
            module == (self.implementation matches MethodImpl::Generated(auto) && auto is Module),
    {
        matches!(self.implementation, MethodImpl::Generated(AutoImpl::Module { .. }))
    }
}

} // verus!
