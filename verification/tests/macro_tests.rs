use actrs::actor_macro::{
    actor, ensure_receiver_is_shared, extract_type_ident, is_msg_ctx_type, parse_actor_args,
    parse_consumer_method, same_type, take_message_consumer_attr, AttrDesc, ExprDesc, InitPlan, MetaDesc,
    MethodDesc, ParamDesc, ReceiverKind, TypeDesc, TypeShape, ERR_CTX_TYPE, ERR_HANDLE_ARG, ERR_MUT_RECEIVER,
    ERR_NO_CONSUMERS, ERR_NO_RECEIVER, ERR_NO_RETURN, ERR_NO_STATE, ERR_NOT_PATH, ERR_OWNED_RECEIVER,
    ERR_RETURN_TYPE, ERR_SIGNATURE, ERR_STATE_ARG, ERR_STATE_MUT, ERR_STATE_REF, ERR_TWO_INITS,
    ERR_TYPED_FIRST, ERR_TYPE_NAME,
};

fn path(segs: &[&str]) -> TypeDesc {
    TypeDesc {
        tokens: segs.join(" :: "),
        shape: TypeShape::Path(segs.iter().map(|s| s.to_string()).collect(), vec![]),
    }
}

/// `actrs :: ActorResult < state >`, as the attribute reads it.
fn result_of(state: &str) -> TypeDesc {
    TypeDesc {
        tokens: format!("actrs :: ActorResult < {} >", state),
        shape: TypeShape::Path(vec!["actrs".to_string(), "ActorResult".to_string()], vec![state.to_string()]),
    }
}

fn typed(ty: TypeDesc) -> ParamDesc {
    ParamDesc::Typed { mutable_binding: false, ty }
}

fn attr(name: &str, arg: Option<&str>) -> AttrDesc {
    AttrDesc { name: name.to_string(), ident_arg: arg.map(|a| a.to_string()) }
}

fn consumer(name: &str, variant: Option<&str>, inputs: Vec<ParamDesc>, output: Option<TypeDesc>) -> MethodDesc {
    let attrs = match variant {
        Some(v) => vec![attr("message_consumer", Some(v))],
        None => vec![],
    };
    MethodDesc { name: name.to_string(), attrs, inputs, output }
}

fn good_inputs() -> Vec<ParamDesc> {
    vec![
        ParamDesc::Receiver(ReceiverKind::Shared),
        typed(path(&["Inc"])),
        typed(path(&["actrs", "MsgCtx"])),
        typed(path(&["MyState"])),
    ]
}

#[test]
fn consumer_with_message_is_accepted() {
    let m = consumer("handle_inc", Some("Inc"), good_inputs(), Some(path(&["MyState"])));
    let c = parse_consumer_method(&m, "Inc".to_string()).unwrap();
    assert_eq!(c.variant, "Inc");
    assert_eq!(c.method_name, "handle_inc");
    assert_eq!(c.msg_type.unwrap().tokens, "Inc");
    assert!(!c.returns_result);
}

#[test]
fn consumer_returning_actor_result_is_accepted() {
    let inputs = vec![
        ParamDesc::Receiver(ReceiverKind::Shared),
        typed(path(&["Stop"])),
        typed(path(&["actrs", "MsgCtx"])),
        typed(path(&["MyState"])),
    ];
    let m = consumer("handle_stop", Some("Stop"), inputs, Some(result_of("MyState")));
    let c = parse_consumer_method(&m, "Stop".to_string()).unwrap();
    assert_eq!(c.variant, "Stop");
    assert_eq!(c.method_name, "handle_stop");
    assert_eq!(c.msg_type.unwrap().tokens, "Stop");
    assert!(c.returns_result);

    let m = consumer("h", Some("V"), good_inputs(), Some(result_of("Other")));
    assert_eq!(parse_consumer_method(&m, "V".to_string()).err(), Some(ERR_RETURN_TYPE));
}

#[test]
fn consumer_without_message_is_accepted() {
    let inputs = vec![ParamDesc::Receiver(ReceiverKind::Shared), typed(path(&["MsgCtx"])), typed(path(&["S"]))];
    let m = consumer("tick", Some("Tick"), inputs, Some(path(&["S"])));
    let c = parse_consumer_method(&m, "Tick".to_string()).unwrap();
    assert!(c.msg_type.is_none());
}

#[test]
fn consumer_receiver_errors() {
    assert_eq!(ensure_receiver_is_shared(&vec![]), Err(ERR_NO_RECEIVER));
    assert_eq!(ensure_receiver_is_shared(&vec![ParamDesc::Receiver(ReceiverKind::Mutable)]), Err(ERR_MUT_RECEIVER));
    assert_eq!(ensure_receiver_is_shared(&vec![ParamDesc::Receiver(ReceiverKind::Owned)]), Err(ERR_OWNED_RECEIVER));
    assert_eq!(ensure_receiver_is_shared(&vec![typed(path(&["X"]))]), Err(ERR_TYPED_FIRST));
    assert_eq!(ensure_receiver_is_shared(&vec![ParamDesc::Receiver(ReceiverKind::Shared)]), Ok(()));
}

#[test]
fn consumer_signature_errors() {
    let no_ret = consumer("h", Some("V"), good_inputs(), None);
    assert_eq!(parse_consumer_method(&no_ret, "V".to_string()).err(), Some(ERR_NO_RETURN));

    let short = consumer("h", Some("V"), vec![ParamDesc::Receiver(ReceiverKind::Shared), typed(path(&["S"]))], Some(path(&["S"])));
    assert_eq!(parse_consumer_method(&short, "V".to_string()).err(), Some(ERR_SIGNATURE));

    let mut inputs = good_inputs();
    inputs[3] = ParamDesc::Typed { mutable_binding: true, ty: path(&["MyState"]) };
    let m = consumer("h", Some("V"), inputs, Some(path(&["MyState"])));
    assert_eq!(parse_consumer_method(&m, "V".to_string()).err(), Some(ERR_STATE_MUT));

    let mut inputs = good_inputs();
    inputs[3] = typed(TypeDesc { tokens: "& MyState".to_string(), shape: TypeShape::Reference });
    let m = consumer("h", Some("V"), inputs, Some(path(&["MyState"])));
    assert_eq!(parse_consumer_method(&m, "V".to_string()).err(), Some(ERR_STATE_REF));

    let m = consumer("h", Some("V"), good_inputs(), Some(path(&["Other"])));
    assert_eq!(parse_consumer_method(&m, "V".to_string()).err(), Some(ERR_RETURN_TYPE));

    let mut inputs = good_inputs();
    inputs[2] = typed(path(&["Context"]));
    let m = consumer("h", Some("V"), inputs, Some(path(&["MyState"])));
    assert_eq!(parse_consumer_method(&m, "V".to_string()).err(), Some(ERR_CTX_TYPE));
}

#[test]
fn type_helpers() {
    assert!(same_type(&path(&["A"]), &path(&["A"])));
    assert!(!same_type(&path(&["A"]), &path(&["B"])));
    assert!(is_msg_ctx_type(&path(&["actrs", "MsgCtx"])));
    assert!(!is_msg_ctx_type(&path(&["MsgCtx", "Other"])));
    assert!(!is_msg_ctx_type(&TypeDesc { tokens: "& MsgCtx".to_string(), shape: TypeShape::Reference }));
    assert_eq!(extract_type_ident(&path(&["m", "CounterActor"])), Ok("CounterActor".to_string()));
    assert_eq!(extract_type_ident(&path(&[])), Err(ERR_TYPE_NAME));
    assert_eq!(extract_type_ident(&TypeDesc { tokens: "(A, B)".to_string(), shape: TypeShape::Other }), Err(ERR_NOT_PATH));
}

#[test]
fn message_consumer_attribute() {
    let m = MethodDesc {
        name: "h".to_string(),
        attrs: vec![attr("doc", None), attr("message_consumer", Some("Inc")), attr("message_consumer", Some("Dec"))],
        inputs: vec![],
        output: None,
    };
    assert_eq!(take_message_consumer_attr(&m), Some("Inc".to_string()));
    let m = MethodDesc { name: "h".to_string(), attrs: vec![attr("message_consumer", None)], inputs: vec![], output: None };
    assert_eq!(take_message_consumer_attr(&m), None);
}

fn name_value(name: &str, value: ExprDesc) -> MetaDesc {
    MetaDesc::NameValue { name: Some(name.to_string()), value }
}

fn expr_path(segs: &[&str]) -> ExprDesc {
    ExprDesc::Path(segs.iter().map(|s| s.to_string()).collect())
}

#[test]
fn actor_arguments() {
    let a = parse_actor_args(&vec![name_value("state", expr_path(&["MyState"]))]).unwrap();
    assert_eq!(a.state_type, vec!["MyState".to_string()]);
    assert_eq!(a.handle_field, "_handle");
    let a = parse_actor_args(&vec![
        name_value("handle", expr_path(&["self", "h"])),
        MetaDesc::Other,
        name_value("state", expr_path(&["m", "S"])),
        name_value("other", ExprDesc::Other),
    ])
    .unwrap();
    assert_eq!(a.state_type, vec!["m".to_string(), "S".to_string()]);
    assert_eq!(a.handle_field, "h");
    assert_eq!(parse_actor_args(&vec![]).err(), Some(ERR_NO_STATE));
    assert_eq!(parse_actor_args(&vec![name_value("state", ExprDesc::Other)]).err(), Some(ERR_STATE_ARG));
    assert_eq!(parse_actor_args(&vec![name_value("handle", expr_path(&[]))]).err(), Some(ERR_HANDLE_ARG));
}

#[test]
fn actor_plan() {
    let args = vec![name_value("state", expr_path(&["MyState"]))];
    let init = MethodDesc {
        name: "initialize".to_string(),
        attrs: vec![attr("initialize", None)],
        inputs: vec![ParamDesc::Receiver(ReceiverKind::Shared), typed(path(&["MyState"]))],
        output: Some(path(&["MyState"])),
    };
    let inc = consumer("handle_inc", Some("Inc"), good_inputs(), Some(path(&["MyState"])));
    let stop_inputs = vec![
        ParamDesc::Receiver(ReceiverKind::Shared),
        typed(path(&["Stop"])),
        typed(path(&["actrs", "MsgCtx"])),
        typed(path(&["MyState"])),
    ];
    let stop = consumer("handle_stop", Some("Stop"), stop_inputs, Some(result_of("MyState")));
    let plan = actor(&args, &path(&["CounterActor"]), &vec![init, inc, stop]).unwrap();
    assert_eq!(plan.enum_name, "CounterActorMessage");
    assert_eq!(plan.consumers.len(), 2);
    assert_eq!(plan.consumers[0].variant, "Inc");
    assert!(!plan.consumers[0].returns_result);
    assert_eq!(plan.consumers[1].variant, "Stop");
    assert!(plan.consumers[1].returns_result);
    match plan.init {
        InitPlan::Call { method, with_param } => {
            assert_eq!(method, "initialize");
            assert!(with_param);
        }
        InitPlan::Default => panic!("expected a call of the initialize method"),
    }
    assert_eq!(plan.init_param_type.tokens, "MyState");
}

#[test]
fn actor_plan_defaults_and_errors() {
    let args = vec![name_value("state", expr_path(&["S"]))];
    let inc = consumer("handle_inc", Some("Inc"), good_inputs(), Some(path(&["MyState"])));
    let plan = actor(&args, &path(&["A"]), &vec![inc]).unwrap();
    assert!(matches!(plan.init, InitPlan::Default));
    assert_eq!(plan.init_param_type.tokens, "()");

    let no_param_init = MethodDesc {
        name: "init".to_string(),
        attrs: vec![attr("initialize", None)],
        inputs: vec![ParamDesc::Receiver(ReceiverKind::Shared)],
        output: Some(path(&["S"])),
    };
    let inc = consumer("handle_inc", Some("Inc"), good_inputs(), Some(path(&["MyState"])));
    let plan = actor(&args, &path(&["A"]), &vec![no_param_init, inc]).unwrap();
    assert!(matches!(plan.init, InitPlan::Call { with_param: false, .. }));

    let plain = consumer("helper", None, vec![], None);
    assert_eq!(actor(&args, &path(&["A"]), &vec![plain]).err(), Some(ERR_NO_CONSUMERS));

    let i1 = MethodDesc { name: "a".to_string(), attrs: vec![attr("initialize", None)], inputs: vec![], output: None };
    let i2 = MethodDesc { name: "b".to_string(), attrs: vec![attr("initialize", None)], inputs: vec![], output: None };
    assert_eq!(actor(&args, &path(&["A"]), &vec![i1, i2]).err(), Some(ERR_TWO_INITS));

    let bad = consumer("h", Some("V"), good_inputs(), None);
    assert_eq!(actor(&args, &path(&["A"]), &vec![bad]).err(), Some(ERR_NO_RETURN));
    assert_eq!(actor(&vec![], &path(&["A"]), &vec![]).err(), Some(ERR_NO_STATE));
    let tuple = TypeDesc { tokens: "()".to_string(), shape: TypeShape::Other };
    assert_eq!(actor(&args, &tuple, &vec![]).err(), Some(ERR_NOT_PATH));
}
