use elrond_wasm::contract::{check_argument_count, ArgumentCheck};
use elrond_wasm::method::{
    ArgMetadata, ArgPaymentMetadata, AutoImpl, CallbackMetadata, EndpointMetadata, InitMetadata,
    Method, MethodArgument, MethodImpl, MethodPayableMetadata, PublicRole,
};

fn argument(name: &str, payment: ArgPaymentMetadata, var_args: bool) -> MethodArgument {
    MethodArgument {
        name: name.to_string(),
        metadata: ArgMetadata { payment, var_args },
    }
}

fn method(public_role: PublicRole, method_args: Vec<MethodArgument>) -> Method {
    Method {
        docs: vec![],
        public_role,
        name: "transfer".to_string(),
        method_args,
        output_names: vec![],
        implementation: MethodImpl::Explicit,
    }
}

#[test]
fn payment_arguments_are_the_first_so_marked() {
    let m = method(
        PublicRole::Private,
        vec![
            argument("to", ArgPaymentMetadata::NotPayment, false),
            argument("token", ArgPaymentMetadata::PaymentToken, false),
            argument("amount", ArgPaymentMetadata::Payment, false),
            argument("again", ArgPaymentMetadata::Payment, false),
        ],
    );
    assert_eq!(m.payment_arg().unwrap().name, "amount");
    assert_eq!(m.place_of_role(ArgPaymentMetadata::Payment), Some(2));
    assert_eq!(m.place_of_role(ArgPaymentMetadata::PaymentToken), Some(1));
    assert_eq!(m.place_of_role(ArgPaymentMetadata::NotPayment), Some(0));
    assert_eq!(m.token_arg().unwrap().name, "token");
    let none = method(
        PublicRole::Private,
        vec![argument("to", ArgPaymentMetadata::NotPayment, true)],
    );
    assert!(none.payment_arg().is_none());
    assert!(none.token_arg().is_none());
    assert!(none.has_variable_nr_args());
    assert!(!m.has_variable_nr_args());
}

#[test]
fn payable_by_role() {
    let init = method(
        PublicRole::Init(InitMetadata {
            payable: MethodPayableMetadata::Egld,
        }),
        vec![],
    );
    assert!(init.is_payable());
    assert!(matches!(init.payable_metadata(), MethodPayableMetadata::Egld));
    let endpoint = method(
        PublicRole::Endpoint(EndpointMetadata {
            public_name: "send".to_string(),
            payable: MethodPayableMetadata::NotPayable,
        }),
        vec![],
    );
    assert!(!endpoint.is_payable());
    assert!(matches!(
        endpoint.payable_metadata(),
        MethodPayableMetadata::NotPayable
    ));
    let token = method(
        PublicRole::Endpoint(EndpointMetadata {
            public_name: "buy".to_string(),
            payable: MethodPayableMetadata::SingleEsdtToken("TOK-123456".to_string()),
        }),
        vec![],
    );
    assert!(token.is_payable());
    assert!(matches!(
        token.payable_metadata(),
        MethodPayableMetadata::SingleEsdtToken(name) if name == "TOK-123456"
    ));
    let callback = method(
        PublicRole::Callback(CallbackMetadata {
            callback_name: "done".to_string(),
        }),
        vec![],
    );
    assert!(callback.is_payable());
    assert!(matches!(
        callback.payable_metadata(),
        MethodPayableMetadata::AnyToken
    ));
    let raw = method(PublicRole::CallbackRaw, vec![]);
    assert!(raw.is_payable());
    let private = method(PublicRole::Private, vec![]);
    assert!(!private.is_payable());
    assert!(matches!(
        private.payable_metadata(),
        MethodPayableMetadata::NotPayable
    ));
}

#[test]
fn endpoint_names() {
    let init = method(
        PublicRole::Init(InitMetadata {
            payable: MethodPayableMetadata::NotPayable,
        }),
        vec![],
    );
    assert_eq!(init.endpoint_name(), Some("init".to_string()));
    let endpoint = method(
        PublicRole::Endpoint(EndpointMetadata {
            public_name: "send".to_string(),
            payable: MethodPayableMetadata::AnyToken,
        }),
        vec![],
    );
    assert_eq!(endpoint.endpoint_name(), Some("send".to_string()));
    assert_eq!(method(PublicRole::Private, vec![]).endpoint_name(), None);
    assert_eq!(method(PublicRole::CallbackRaw, vec![]).endpoint_name(), None);
}

#[test]
fn modules() {
    let mut m = method(PublicRole::Private, vec![]);
    assert!(!m.is_module());
    m.implementation = MethodImpl::Generated(AutoImpl::Module {
        impl_path: "crate::users".to_string(),
    });
    assert!(m.is_module());
    m.implementation = MethodImpl::Generated(AutoImpl::Event {
        identifier: "transfer".to_string(),
    });
    assert!(!m.is_module());
    m.implementation = MethodImpl::NoImplementation;
    assert!(!m.is_module());
}

#[test]
fn argument_counts() {
    assert_eq!(check_argument_count(2, 2), ArgumentCheck::Exact);
    assert_eq!(check_argument_count(3, 2), ArgumentCheck::WithCallback);
    assert_eq!(check_argument_count(1, 2), ArgumentCheck::Wrong);
    assert_eq!(check_argument_count(4, 2), ArgumentCheck::Wrong);
    assert_eq!(check_argument_count(0, 0), ArgumentCheck::Exact);
    assert_eq!(check_argument_count(1, 0), ArgumentCheck::WithCallback);
    assert_eq!(check_argument_count(0, -1), ArgumentCheck::Wrong);
    assert_eq!(
        check_argument_count(i32::MAX, i32::MAX),
        ArgumentCheck::Exact
    );
    assert_eq!(check_argument_count(0, i32::MAX), ArgumentCheck::Wrong);
}
