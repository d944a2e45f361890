use vstd::prelude::*;

verus! {

// The checks that the `#[actor]` attribute makes on the impl block it is put
// on, over a plain description of the items it reads.

/// The shape of a type: a path with its segments and the type arguments of
/// its last segment (each as its tokens), a reference, or another form.
pub enum TypeShape {
    Path(Vec<String>, Vec<String>),
    Reference,
    Other,
}

/// A type as written: its tokens as text, and its shape.
pub struct TypeDesc {
    pub tokens: String,
    pub shape: TypeShape,
}

/// The receiver of a method: `&self`, `&mut self`, or `self`.
pub enum ReceiverKind {
    Shared,
    Mutable,
    Owned,
}

/// A parameter of a method: the receiver, or a typed parameter whose
/// pattern may be a `mut` binding.
pub enum ParamDesc {
    Receiver(ReceiverKind),
    Typed { mutable_binding: bool, ty: TypeDesc },
}

/// An attribute of a method: its name, and its argument when that is a
/// single identifier.
pub struct AttrDesc {
    pub name: String,
    pub ident_arg: Option<String>,
}

/// A method of the impl block.
pub struct MethodDesc {
    pub name: String,
    pub attrs: Vec<AttrDesc>,
    pub inputs: Vec<ParamDesc>,
    pub output: Option<TypeDesc>,
}

/// The value of an argument `name = value` of `#[actor(..)]`: a path with its
/// segments, or another expression.
pub enum ExprDesc {
    Path(Vec<String>),
    Other,
}

/// An argument of `#[actor(..)]`: `name = value`, where `name` is given when
/// it is a bare identifier; or another form.
pub enum MetaDesc {
    NameValue { name: Option<String>, value: ExprDesc },
    Other,
}

/// A message consumer: the message variant it handles, its method, the
/// type of its message parameter, if it takes one, and whether it returns an
/// `ActorResult` of the state (`true`) or the state itself, which the actor
/// wraps as `ActorResult::Continue` (`false`).
pub struct ConsumerMethod {
    pub variant: String,
    pub method_name: String,
    pub msg_type: Option<TypeDesc>,
    pub returns_result: bool,
}

/// The arguments of `#[actor(..)]`: the state type's path, and the field
/// that holds the actor's handle.
pub struct ActorArgs {
    pub state_type: Vec<String>,
    pub handle_field: String,
}

pub const ERR_NO_RECEIVER: &'static str = "message consumer must have receiver &self as first parameter";

pub const ERR_MUT_RECEIVER: &'static str = "message consumer must use &self, not &mut self";

pub const ERR_OWNED_RECEIVER: &'static str = "message consumer must use &self";

pub const ERR_TYPED_FIRST: &'static str = "message consumer must have &self as first parameter";

pub const ERR_NO_RETURN: &'static str = "message consumer must return state type T";

pub const ERR_SIGNATURE: &'static str = "message consumer must have one of these signatures:\n  fn handler(&self, msg: Msg, ctx: ::actrs::MsgCtx, state: T) -> T\n  fn handler(&self, ctx: ::actrs::MsgCtx, state: T) -> T";

pub const ERR_STATE_MUT: &'static str = "the state parameter must not be mutable (The state should never be mutable)";

pub const ERR_STATE_REF: &'static str = "the state parameter must be passed by value, not by reference";

pub const ERR_RETURN_TYPE: &'static str = "return type must be the same as the state parameter type";

pub const ERR_CTX_TYPE: &'static str = "second-to-last parameter must have type MsgCtx";

pub const ERR_STATE_ARG: &'static str = "expected a type path after state = ...";

pub const ERR_HANDLE_ARG: &'static str = "expected a field name after handle = ...";

pub const ERR_NO_STATE: &'static str = "expected #[actor(state = T)]";

pub const ERR_TYPE_NAME: &'static str = "could not determine actor type name";

pub const ERR_NOT_PATH: &'static str = "#[actor] currently supports only concrete path types like MyActor<T>";

pub const ERR_TWO_INITS: &'static str = "only one #[initialize] method is allowed";

pub const ERR_NO_CONSUMERS: &'static str = "no #[message_consumer(...)] methods found inside #[actor] impl block";

/// The texts of a sequence of strings.
pub open spec fn texts(v: Seq<String>) -> Seq<Seq<char>> {
    v.map_values(|s: String| s@)
}

/// The shape of a type, with its segments as text.
pub enum ShapeView {
    Path(Seq<Seq<char>>, Seq<Seq<char>>),
    Reference,
    Other,
}

impl TypeDesc {
    pub open spec fn shape_view(self) -> ShapeView {
        match self.shape {
            TypeShape::Path(segs, args) => ShapeView::Path(texts(segs@), texts(args@)),
            TypeShape::Reference => ShapeView::Reference,
            TypeShape::Other => ShapeView::Other,
        }
    }

    /// Whether `other` is written the same as `self` and has the same shape.
    pub open spec fn same_view(self, other: TypeDesc) -> bool {
        self.tokens@ == other.tokens@ && self.shape_view() == other.shape_view()
    }

    /// Whether this is a path type whose last segment is `MsgCtx`.
    pub open spec fn is_msg_ctx(self) -> bool {
        self.shape_view() matches ShapeView::Path(segs, _) && segs.len() > 0 && segs.last() == "MsgCtx"@
    }

    /// Whether this is `ActorResult<T>`, with `T` written as `state` is: a
    /// path whose last segment is `ActorResult` with that one type argument.
    pub open spec fn is_result_of(self, state: TypeDesc) -> bool {
        &&& self.shape_view() matches ShapeView::Path(segs, args)
        &&& segs.len() > 0
        &&& segs.last() == "ActorResult"@
        &&& args.len() == 1
        &&& args[0] == state.tokens@
    }
}

/// Whether the two strings hold the same text.
fn same_text(a: &String, b: &str) -> (r: bool)
    ensures
        r == (a@ == b@),
{
    let t = String::from_str(b);
    *a == t
}

/// A copy of a list of strings.
fn copy_strings(v: &Vec<String>) -> (r: Vec<String>)
    ensures
        texts(r@) == texts(v@),
{
    let mut r: Vec<String> = Vec::new();
    let mut i: usize = 0;
    while i < v.len()
        invariant
            i <= v@.len(),
            r@.len() == i,
            forall|j: int| 0 <= j < i ==> #[trigger] r@[j]@ == v@[j]@,
        decreases v@.len() - i,
    {
        r.push(v[i].clone());
        i = i + 1;
    }
    assert(texts(r@) =~= texts(v@));
    r
}

impl TypeDesc {
    /// A copy of the type description.
    pub fn copy(&self) -> (r: TypeDesc)
        ensures
            r.same_view(*self),
    {
        let shape = match &self.shape {
            TypeShape::Path(segs, args) => TypeShape::Path(copy_strings(segs), copy_strings(args)),
            TypeShape::Reference => TypeShape::Reference,
            TypeShape::Other => TypeShape::Other,
        };
        TypeDesc { tokens: self.tokens.clone(), shape }
    }
}

/// Whether two types are written the same (their tokens compare equal as text).
pub fn same_type(a: &TypeDesc, b: &TypeDesc) -> (r: bool)
    ensures
        r == (a.tokens@ == b.tokens@),
{
    a.tokens == b.tokens
}

/// Whether the type is `MsgCtx`, by the last segment of its path.
pub fn is_msg_ctx_type(ty: &TypeDesc) -> (r: bool)
    ensures
        r == ty.is_msg_ctx(),
{
    match &ty.shape {
        TypeShape::Path(segs, _) => {
            if segs.len() == 0 {
                false
            } else {
                proof {
                    assert(texts(segs@).last() == segs@[segs@.len() - 1]@);
                }
                same_text(&segs[segs.len() - 1], "MsgCtx")
            }
        },
        _ => false,
    }
}

/// Whether `ret` is `ActorResult<T>` with `T` written as `state` is.
pub fn is_result_type_of(ret: &TypeDesc, state: &TypeDesc) -> (r: bool)
    ensures
        r == ret.is_result_of(*state),
{
    match &ret.shape {
        TypeShape::Path(segs, args) => {
            if segs.len() == 0 || args.len() != 1 {
                false
            } else {
                proof {
                    assert(texts(segs@).last() == segs@[segs@.len() - 1]@);
                    assert(texts(args@)[0] == args@[0]@);
                }
                same_text(&segs[segs.len() - 1], "ActorResult") && args[0] == state.tokens
            }
        },
        _ => false,
    }
}

/// What the check of the first parameter answers.
pub open spec fn receiver_verdict(inputs: Seq<ParamDesc>) -> Result<(), &'static str> {
    if inputs.len() == 0 {
        Err(ERR_NO_RECEIVER)
    } else {
        match inputs[0] {
            ParamDesc::Receiver(ReceiverKind::Shared) => Ok(()),
            ParamDesc::Receiver(ReceiverKind::Mutable) => Err(ERR_MUT_RECEIVER),
            ParamDesc::Receiver(ReceiverKind::Owned) => Err(ERR_OWNED_RECEIVER),
            ParamDesc::Typed { .. } => Err(ERR_TYPED_FIRST),
        }
    }
}

/// Checks that a message consumer takes `&self` first.
pub fn ensure_receiver_is_shared(inputs: &Vec<ParamDesc>) -> (r: Result<(), &'static str>)
    ensures
        r == receiver_verdict(inputs@),
{
    if inputs.len() == 0 {
        return Err(ERR_NO_RECEIVER);
    }
    match &inputs[0] {
        ParamDesc::Receiver(ReceiverKind::Shared) => Ok(()),
        ParamDesc::Receiver(ReceiverKind::Mutable) => Err(ERR_MUT_RECEIVER),
        ParamDesc::Receiver(ReceiverKind::Owned) => Err(ERR_OWNED_RECEIVER),
        ParamDesc::Typed { .. } => Err(ERR_TYPED_FIRST),
    }
}

/// Checks that a message consumer declares a return type.
pub fn ensure_return_type_present(method: &MethodDesc) -> (r: Result<(), &'static str>)
    ensures
        r == (if method.output is Some {
            Ok::<(), &'static str>(())
        } else {
            Err(ERR_NO_RETURN)
        }),
{
    match &method.output {
        Some(_) => Ok(()),
        None => Err(ERR_NO_RETURN),
    }
}

/// The positions of the typed parameters among `inputs`, in order.
pub open spec fn typed_positions(inputs: Seq<ParamDesc>) -> Seq<int>
    decreases inputs.len(),
{
    if inputs.len() == 0 {
        Seq::empty()
    } else {
        let rest = typed_positions(inputs.drop_last());
        if inputs.last() is Typed {
            rest.push(inputs.len() - 1)
        } else {
            rest
        }
    }
}

/// What the checks of a message consumer answer: `Ok((has_msg,
/// returns_result))`, where `has_msg` says whether it takes a message
/// parameter besides the context and the state, and `returns_result` whether
/// it returns `ActorResult<T>` rather than the state type `T` itself; or the
/// first error found.
pub open spec fn consumer_verdict(m: MethodDesc) -> Result<(bool, bool), &'static str> {
    let ins = m.inputs@;
    let pos = typed_positions(ins);
    if receiver_verdict(ins) is Err {
        Err(receiver_verdict(ins)->Err_0)
    } else if m.output is None {
        Err(ERR_NO_RETURN)
    } else if pos.len() != 3 && pos.len() != 2 {
        Err(ERR_SIGNATURE)
    } else {
        let ctx = ins[pos[pos.len() - 2]];
        let st = ins[pos[pos.len() - 1]];
        if st->mutable_binding {
            Err(ERR_STATE_MUT)
        } else if st->ty.shape is Reference {
            Err(ERR_STATE_REF)
        } else if m.output->0.tokens@ != st->ty.tokens@ && !m.output->0.is_result_of(st->ty) {
            Err(ERR_RETURN_TYPE)
        } else if !ctx->ty.is_msg_ctx() {
            Err(ERR_CTX_TYPE)
        } else {
            Ok((pos.len() == 3, m.output->0.tokens@ != st->ty.tokens@))
        }
    }
}

proof fn lemma_typed_positions(inputs: Seq<ParamDesc>)
    ensures
        forall|k: int|
            0 <= k < typed_positions(inputs).len() ==> 0 <= #[trigger] typed_positions(inputs)[k] < inputs.len()
                && inputs[typed_positions(inputs)[k]] is Typed,
    decreases inputs.len(),
{
    if inputs.len() > 0 {
        lemma_typed_positions(inputs.drop_last());
        let rest = typed_positions(inputs.drop_last());
        assert forall|k: int| 0 <= k < rest.len() implies inputs[#[trigger] rest[k]] is Typed by {
            assert(inputs.drop_last()[rest[k]] == inputs[rest[k]]);
        }
    }
}

/// The positions of the typed parameters of `inputs`.
fn typed_params(inputs: &Vec<ParamDesc>) -> (r: Vec<usize>)
    ensures
        r@.len() == typed_positions(inputs@).len(),
        forall|k: int| 0 <= k < r@.len() ==> #[trigger] r@[k] as int == typed_positions(inputs@)[k] && r@[k]
            < inputs@.len(),
{
    let mut r: Vec<usize> = Vec::new();
    let mut i: usize = 0;
    while i < inputs.len()
        invariant
            i <= inputs@.len(),
            r@.len() == typed_positions(inputs@.take(i as int)).len(),
            forall|k: int|
                0 <= k < r@.len() ==> #[trigger] r@[k] as int == typed_positions(inputs@.take(i as int))[k]
                    && r@[k] < i,
        decreases inputs@.len() - i,
    {
        proof {
            assert(inputs@.take(i + 1).drop_last() =~= inputs@.take(i as int));
        }
        match &inputs[i] {
            ParamDesc::Typed { .. } => {
                r.push(i);
            },
            _ => {},
        }
        i = i + 1;
    }
    assert(inputs@.take(inputs@.len() as int) =~= inputs@);
    r
}

/// Checks a method marked as message consumer for `variant`, and describes it.
pub fn parse_consumer_method(method: &MethodDesc, variant: String) -> (r: Result<
    ConsumerMethod,
    &'static str,
>)
    ensures
        consumer_verdict(*method) matches Err(e) ==> r == Err::<ConsumerMethod, &'static str>(e),
        consumer_verdict(*method) matches Ok((has_msg, returns_result)) ==> (r matches Ok(c) && c.variant
            == variant && c.method_name@ == method.name@ && c.returns_result == returns_result && (has_msg
            ==> (c.msg_type matches Some(t) && t.same_view(method.inputs@[typed_positions(method.inputs@)[0]]->ty)))
            && (!has_msg ==> c.msg_type is None)),
{
    ensure_receiver_is_shared(&method.inputs)?;
    ensure_return_type_present(method)?;
    let pos = typed_params(&method.inputs);
    proof {
        lemma_typed_positions(method.inputs@);
    }
    let n = pos.len();
    if n != 3 && n != 2 {
        return Err(ERR_SIGNATURE);
    }
    let ctx_ty = match &method.inputs[pos[n - 2]] {
        ParamDesc::Typed { ty, .. } => ty,
        ParamDesc::Receiver(_) => {
            return Err(ERR_SIGNATURE);
        },
    };
    let (state_mut, state_ty) = match &method.inputs[pos[n - 1]] {
        ParamDesc::Typed { mutable_binding, ty } => (*mutable_binding, ty),
        ParamDesc::Receiver(_) => {
            return Err(ERR_SIGNATURE);
        },
    };
    if state_mut {
        return Err(ERR_STATE_MUT);
    }
    match &state_ty.shape {
        TypeShape::Reference => {
            return Err(ERR_STATE_REF);
        },
        _ => {},
    }
    let ret_ty = match &method.output {
        Some(t) => t,
        None => {
            return Err(ERR_NO_RETURN);
        },
    };
    let returns_result = if same_type(ret_ty, state_ty) {
        false
    } else if is_result_type_of(ret_ty, state_ty) {
        true
    } else {
        return Err(ERR_RETURN_TYPE);
    };
    if !is_msg_ctx_type(ctx_ty) {
        return Err(ERR_CTX_TYPE);
    }
    let msg_type = if n == 3 {
        match &method.inputs[pos[0]] {
            ParamDesc::Typed { ty, .. } => Some(ty.copy()),
            ParamDesc::Receiver(_) => None,
        }
    } else {
        None
    };
    Ok(ConsumerMethod { variant, method_name: method.name.clone(), msg_type, returns_result })
}

/// The text of an optional string.
pub open spec fn opt_text(o: Option<String>) -> Option<Seq<char>> {
    match o {
        Some(s) => Some(s@),
        None => None,
    }
}

/// The scan of the arguments of `#[actor(..)]` from the front, with what
/// the earlier ones set: a later `state` or `handle` replaces an earlier one.
pub open spec fn args_scan(args: Seq<MetaDesc>, state: Option<Seq<Seq<char>>>, handle: Option<Seq<char>>) -> Result<
    (Option<Seq<Seq<char>>>, Option<Seq<char>>),
    &'static str,
>
    decreases args.len(),
{
    if args.len() == 0 {
        Ok((state, handle))
    } else {
        let rest = args.drop_first();
        match args[0] {
            MetaDesc::NameValue { name: Some(n), value } => {
                if n@ == "state"@ {
                    match value {
                        ExprDesc::Path(segs) => args_scan(rest, Some(texts(segs@)), handle),
                        ExprDesc::Other => Err(ERR_STATE_ARG),
                    }
                } else if n@ == "handle"@ {
                    match value {
                        ExprDesc::Path(segs) => if segs@.len() > 0 {
                            args_scan(rest, state, Some(segs@.last()@))
                        } else {
                            Err(ERR_HANDLE_ARG)
                        },
                        ExprDesc::Other => Err(ERR_HANDLE_ARG),
                    }
                } else {
                    args_scan(rest, state, handle)
                }
            },
            _ => args_scan(rest, state, handle),
        }
    }
}

/// What parsing the arguments of `#[actor(..)]` answers: the state type's
/// path and the handle field (`_handle` when not given), or the first error.
pub open spec fn args_verdict(args: Seq<MetaDesc>) -> Result<(Seq<Seq<char>>, Seq<char>), &'static str> {
    match args_scan(args, None, None) {
        Err(e) => Err(e),
        Ok((None, _)) => Err(ERR_NO_STATE),
        Ok((Some(st), h)) => Ok(
            (
                st,
                match h {
                    Some(h) => h,
                    None => "_handle"@,
                },
            ),
        ),
    }
}

/// Parses the arguments of `#[actor(state = T, handle = field)]`.
pub fn parse_actor_args(args: &Vec<MetaDesc>) -> (r: Result<ActorArgs, &'static str>)
    ensures
        args_verdict(args@) matches Err(e) ==> r == Err::<ActorArgs, &'static str>(e),
        args_verdict(args@) matches Ok((st, h)) ==> (r matches Ok(a) && texts(a.state_type@) == st
            && a.handle_field@ == h),
{
    let mut state_type: Option<Vec<String>> = None;
    let mut handle_field: Option<String> = None;
    let mut i: usize = 0;
    proof {
        assert(args@.skip(0) =~= args@);
    }
    while i < args.len()
        invariant
            i <= args@.len(),
            args_scan(args@, None, None) == args_scan(
                args@.skip(i as int),
                match state_type {
                    Some(v) => Some(texts(v@)),
                    None => None,
                },
                opt_text(handle_field),
            ),
        decreases args@.len() - i,
    {
        proof {
            assert(args@.skip(i as int).drop_first() =~= args@.skip(i + 1));
            assert(args@.skip(i as int)[0] == args@[i as int]);
        }
        match &args[i] {
            MetaDesc::NameValue { name: Some(n), value } => {
                if same_text(n, "state") {
                    match value {
                        ExprDesc::Path(segs) => {
                            state_type = Some(copy_strings(segs));
                        },
                        ExprDesc::Other => {
                            return Err(ERR_STATE_ARG);
                        },
                    }
                } else if same_text(n, "handle") {
                    match value {
                        ExprDesc::Path(segs) => {
                            if segs.len() > 0 {
                                handle_field = Some(segs[segs.len() - 1].clone());
                            } else {
                                return Err(ERR_HANDLE_ARG);
                            }
                        },
                        ExprDesc::Other => {
                            return Err(ERR_HANDLE_ARG);
                        },
                    }
                }
            },
            _ => {},
        }
        i = i + 1;
    }
    proof {
        assert(args@.skip(args@.len() as int) =~= Seq::<MetaDesc>::empty());
    }
    match state_type {
        None => Err(ERR_NO_STATE),
        Some(st) => {
            let h = match handle_field {
                Some(h) => h,
                None => String::from_str("_handle"),
            };
            Ok(ActorArgs { state_type: st, handle_field: h })
        },
    }
}

/// What extracting the actor's name from its type answers.
pub open spec fn type_name_verdict(t: TypeDesc) -> Result<Seq<char>, &'static str> {
    match t.shape_view() {
        ShapeView::Path(segs, _) => if segs.len() > 0 {
            Ok(segs.last())
        } else {
            Err(ERR_TYPE_NAME)
        },
        _ => Err(ERR_NOT_PATH),
    }
}

/// The name of the actor type: the last segment of its path.
pub fn extract_type_ident(self_ty: &TypeDesc) -> (r: Result<String, &'static str>)
    ensures
        type_name_verdict(*self_ty) matches Err(e) ==> r == Err::<String, &'static str>(e),
        type_name_verdict(*self_ty) matches Ok(n) ==> (r matches Ok(name) && name@ == n),
{
    match &self_ty.shape {
        TypeShape::Path(segs, _) => {
            if segs.len() > 0 {
                proof {
                    assert(texts(segs@).last() == segs@[segs@.len() - 1]@);
                }
                Ok(segs[segs.len() - 1].clone())
            } else {
                Err(ERR_TYPE_NAME)
            }
        },
        _ => Err(ERR_NOT_PATH),
    }
}

/// Among `attrs`, the argument of the first attribute named `name` (itself
/// optional), or `None` when no attribute has that name.
pub open spec fn first_attr_arg(attrs: Seq<AttrDesc>, name: Seq<char>) -> Option<Option<Seq<char>>>
    decreases attrs.len(),
{
    if attrs.len() == 0 {
        None
    } else if attrs[0].name@ == name {
        Some(opt_text(attrs[0].ident_arg))
    } else {
        first_attr_arg(attrs.drop_first(), name)
    }
}

/// The argument of the first attribute named `name`, if there is one.
fn find_attr(attrs: &Vec<AttrDesc>, name: &str) -> (r: Option<Option<String>>)
    ensures
        match first_attr_arg(attrs@, name@) {
            None => r is None,
            Some(arg) => r matches Some(a) && opt_text(a) == arg,
        },
{
    let mut i: usize = 0;
    proof {
        assert(attrs@.skip(0) =~= attrs@);
    }
    while i < attrs.len()
        invariant
            i <= attrs@.len(),
            first_attr_arg(attrs@, name@) == first_attr_arg(attrs@.skip(i as int), name@),
        decreases attrs@.len() - i,
    {
        proof {
            assert(attrs@.skip(i as int).drop_first() =~= attrs@.skip(i + 1));
            assert(attrs@.skip(i as int)[0] == attrs@[i as int]);
        }
        if same_text(&attrs[i].name, name) {
            return Some(attrs[i].ident_arg.clone());
        }
        i = i + 1;
    }
    proof {
        assert(attrs@.skip(attrs@.len() as int) =~= Seq::<AttrDesc>::empty());
    }
    None
}

/// The variant named by the method's `#[message_consumer(Variant)]`
/// attribute, when it has one whose argument is an identifier.
pub fn take_message_consumer_attr(method: &MethodDesc) -> (r: Option<String>)
    ensures
        opt_text(r) == (match first_attr_arg(method.attrs@, "message_consumer"@) {
            Some(arg) => arg,
            None => None,
        }),
{
    match find_attr(&method.attrs, "message_consumer") {
        Some(arg) => arg,
        None => None,
    }
}

/// How the generated `handle_init` builds the initial state.
pub enum InitPlan {
    /// No `#[initialize]` method: `Default::default()`.
    Default,
    /// Calls the `#[initialize]` method, with the parameter unless its type
    /// is `()`.
    Call { method: String, with_param: bool },
}

/// What the `#[actor]` attribute generates, as decisions: the message enum's
/// name, its variants, the initialisation, and the arguments.
pub struct ActorPlan {
    pub args: ActorArgs,
    pub enum_name: String,
    pub consumers: Vec<ConsumerMethod>,
    pub init: InitPlan,
    pub init_param_type: TypeDesc,
}

/// A message consumer, as text, with whether it returns `ActorResult<T>`.
pub struct ConsumerView {
    pub variant: Seq<char>,
    pub method: Seq<char>,
    pub msg: Option<(Seq<char>, ShapeView)>,
    pub returns_result: bool,
}

pub open spec fn consumer_view(c: ConsumerMethod) -> ConsumerView {
    ConsumerView {
        variant: c.variant@,
        method: c.method_name@,
        msg: match c.msg_type {
            Some(t) => Some((t.tokens@, t.shape_view())),
            None => None,
        },
        returns_result: c.returns_result,
    }
}

/// The type of the first typed parameter of `inputs`, as text, or `()`.
pub open spec fn init_param_view(inputs: Seq<ParamDesc>) -> (Seq<char>, ShapeView) {
    let pos = typed_positions(inputs);
    if pos.len() > 0 {
        (inputs[pos[0]]->ty.tokens@, inputs[pos[0]]->ty.shape_view())
    } else {
        ("()"@, ShapeView::Other)
    }
}

/// The scan of the methods from the front: the `#[initialize]` method seen
/// so far (its name and parameter type), and the consumers found so far.
pub open spec fn items_scan(
    items: Seq<MethodDesc>,
    init: Option<(Seq<char>, (Seq<char>, ShapeView))>,
    cons: Seq<ConsumerView>,
) -> Result<(Option<(Seq<char>, (Seq<char>, ShapeView))>, Seq<ConsumerView>), &'static str>
    decreases items.len(),
{
    if items.len() == 0 {
        Ok((init, cons))
    } else {
        let m = items[0];
        let rest = items.drop_first();
        let is_init = first_attr_arg(m.attrs@, "initialize"@) is Some;
        if is_init && init is Some {
            Err(ERR_TWO_INITS)
        } else {
            let init2 = if is_init {
                Some((m.name@, init_param_view(m.inputs@)))
            } else {
                init
            };
            match first_attr_arg(m.attrs@, "message_consumer"@) {
                Some(Some(variant)) => match consumer_verdict(m) {
                    Err(e) => Err(e),
                    Ok((has_msg, returns_result)) => items_scan(
                        rest,
                        init2,
                        cons.push(
                            ConsumerView {
                                variant,
                                method: m.name@,
                                msg: if has_msg {
                                    Some(
                                        (
                                            m.inputs@[typed_positions(m.inputs@)[0]]->ty.tokens@,
                                            m.inputs@[typed_positions(m.inputs@)[0]]->ty.shape_view(),
                                        ),
                                    )
                                } else {
                                    None
                                },
                                returns_result,
                            },
                        ),
                    ),
                },
                _ => items_scan(rest, init2, cons),
            }
        }
    }
}

/// The text and shape of the type `()`.
pub open spec fn unit_view() -> (Seq<char>, ShapeView) {
    ("()"@, ShapeView::Other)
}

/// The decisions of the `#[actor]` attribute, as text: the state type's
/// path, the handle field, the message enum's name, the consumers, the
/// `#[initialize]` method with whether it takes its parameter, and the type
/// of the initialisation parameter.
pub struct PlanView {
    pub state: Seq<Seq<char>>,
    pub handle: Seq<char>,
    pub enum_name: Seq<char>,
    pub consumers: Seq<ConsumerView>,
    pub init: Option<(Seq<char>, bool)>,
    pub init_param: (Seq<char>, ShapeView),
}

pub open spec fn plan_view(p: ActorPlan) -> PlanView {
    PlanView {
        state: texts(p.args.state_type@),
        handle: p.args.handle_field@,
        enum_name: p.enum_name@,
        consumers: p.consumers@.map_values(|c: ConsumerMethod| consumer_view(c)),
        init: match p.init {
            InitPlan::Default => None,
            InitPlan::Call { method, with_param } => Some((method@, with_param)),
        },
        init_param: (p.init_param_type.tokens@, p.init_param_type.shape_view()),
    }
}

/// What the `#[actor]` attribute decides for an impl block of type
/// `self_ty` with the methods `items` and the arguments `args`: the first
/// error, in the order the attribute checks them, or its plan.
pub open spec fn actor_verdict(args: Seq<MetaDesc>, self_ty: TypeDesc, items: Seq<MethodDesc>) -> Result<
    PlanView,
    &'static str,
> {
    match args_verdict(args) {
        Err(e) => Err(e),
        Ok((st, h)) => match type_name_verdict(self_ty) {
            Err(e) => Err(e),
            Ok(name) => match items_scan(items, None, Seq::empty()) {
                Err(e) => Err(e),
                Ok((init, cons)) => if cons.len() == 0 {
                    Err(ERR_NO_CONSUMERS)
                } else {
                    Ok(
                        PlanView {
                            state: st,
                            handle: h,
                            enum_name: name + "Message"@,
                            consumers: cons,
                            init: match init {
                                None => None,
                                Some((m, ty)) => Some((m, ty.0 != "()"@)),
                            },
                            init_param: match init {
                                None => unit_view(),
                                Some((m, ty)) => ty,
                            },
                        },
                    )
                },
            },
        },
    }
}

/// A scan of the methods keeps the `#[initialize]` method it was given, or,
/// when it had none, finds it among the methods: one marked `#[initialize]`,
/// with the type of its first typed parameter.
proof fn lemma_items_scan_init(
    items: Seq<MethodDesc>,
    init: Option<(Seq<char>, (Seq<char>, ShapeView))>,
    cons: Seq<ConsumerView>,
)
    ensures
        items_scan(items, init, cons) matches Ok((found, _)) ==> found == init || (init is None && exists|i: int|
            0 <= i < items.len() && first_attr_arg(items[i].attrs@, "initialize"@) is Some && found == Some(
                (items[i].name@, init_param_view(items[i].inputs@)),
            )),
    decreases items.len(),
{
    if items.len() > 0 {
        let m = items[0];
        let rest = items.drop_first();
        let is_init = first_attr_arg(m.attrs@, "initialize"@) is Some;
        if !(is_init && init is Some) {
            let init2 = if is_init {
                Some((m.name@, init_param_view(m.inputs@)))
            } else {
                init
            };
            match first_attr_arg(m.attrs@, "message_consumer"@) {
                Some(Some(variant)) => match consumer_verdict(m) {
                    Err(e) => {},
                    Ok((has_msg, returns_result)) => {
                        let c2 = cons.push(
                            ConsumerView {
                                variant,
                                method: m.name@,
                                msg: if has_msg {
                                    Some(
                                        (
                                            m.inputs@[typed_positions(m.inputs@)[0]]->ty.tokens@,
                                            m.inputs@[typed_positions(m.inputs@)[0]]->ty.shape_view(),
                                        ),
                                    )
                                } else {
                                    None
                                },
                                returns_result,
                            },
                        );
                        lemma_items_scan_init(rest, init2, c2);
                        lemma_scan_found_in_rest(items, rest, init, init2, c2);
                    },
                },
                _ => {
                    lemma_items_scan_init(rest, init2, cons);
                    lemma_scan_found_in_rest(items, rest, init, init2, cons);
                },
            }
        }
    }
}

/// A method found in the rest of the methods is one of the methods.
proof fn lemma_scan_found_in_rest(
    items: Seq<MethodDesc>,
    rest: Seq<MethodDesc>,
    init: Option<(Seq<char>, (Seq<char>, ShapeView))>,
    init2: Option<(Seq<char>, (Seq<char>, ShapeView))>,
    cons: Seq<ConsumerView>,
)
    requires
        items.len() > 0,
        rest == items.drop_first(),
        init2 == init || (init is None && first_attr_arg(items[0].attrs@, "initialize"@) is Some && init2 == Some(
            (items[0].name@, init_param_view(items[0].inputs@)),
        )),
        items_scan(rest, init2, cons) matches Ok((found, _)) ==> found == init2 || (init2 is None && exists|i: int|
            0 <= i < rest.len() && first_attr_arg(rest[i].attrs@, "initialize"@) is Some && found == Some(
                (rest[i].name@, init_param_view(rest[i].inputs@)),
            )),
    ensures
        items_scan(rest, init2, cons) matches Ok((found, _)) ==> found == init || (init is None && exists|i: int|
            0 <= i < items.len() && first_attr_arg(items[i].attrs@, "initialize"@) is Some && found == Some(
                (items[i].name@, init_param_view(items[i].inputs@)),
            )),
{
    if let Ok((found, _)) = items_scan(rest, init2, cons) {
        if found != init2 {
            let i = choose|i: int|
                0 <= i < rest.len() && first_attr_arg(rest[i].attrs@, "initialize"@) is Some && found == Some(
                    (rest[i].name@, init_param_view(rest[i].inputs@)),
                );
            assert(items[i + 1] == rest[i]);
        } else if found != init {
            assert(items[0] == items[0]);
        }
    }
}

/// The initialisation parameter of a plan fits its `#[initialize]` method:
/// the method is one of the methods marked `#[initialize]`; it is called with
/// the parameter exactly when the parameter type is not `()`; a method
/// without a typed parameter is called without one, with parameter type
/// `()` whatever the state type; and without such a method the parameter
/// type is `()`.
pub proof fn law_init_param_fits_init_method(args: Seq<MetaDesc>, self_ty: TypeDesc, items: Seq<MethodDesc>)
    ensures
        actor_verdict(args, self_ty, items) matches Ok(plan) ==> {
            &&& plan.init is None ==> plan.init_param.0 == seq!['(', ')']
            &&& plan.init matches Some((m, with_param)) ==> {
                &&& with_param <==> plan.init_param.0 != seq!['(', ')']
                &&& exists|i: int|
                    0 <= i < items.len() && items[i].name@ == m && first_attr_arg(items[i].attrs@, "initialize"@)
                        is Some && (typed_positions(items[i].inputs@).len() == 0 ==> !with_param
                        && plan.init_param.0 == seq!['(', ')'])
            }
        },
{
    lemma_items_scan_init(items, None, Seq::empty());
    reveal_strlit("()");
    if let Ok(plan) = actor_verdict(args, self_ty, items) {
        assert(unit_view().0 == seq!['(', ')']);
    }
}

/// The decisions of the `#[actor]` attribute for an impl block of type
/// `self_ty` with the methods `items` and the arguments `args`.
pub fn actor(args: &Vec<MetaDesc>, self_ty: &TypeDesc, items: &Vec<MethodDesc>) -> (r: Result<
    ActorPlan,
    &'static str,
>)
    ensures
        actor_verdict(args@, *self_ty, items@) matches Err(e) ==> r == Err::<ActorPlan, &'static str>(e),
        actor_verdict(args@, *self_ty, items@) matches Ok(v) ==> (r matches Ok(p) && plan_view(p) == v),
{
    let parsed_args = parse_actor_args(args)?;
    let actor_ident = extract_type_ident(self_ty)?;
    let enum_name = actor_ident.concat("Message");
    let mut consumers: Vec<ConsumerMethod> = Vec::new();
    let mut init_method: Option<String> = None;
    let mut init_param_type: Option<TypeDesc> = None;
    let mut i: usize = 0;
    proof {
        assert(items@.skip(0) =~= items@);
        assert(consumers@.map_values(|c: ConsumerMethod| consumer_view(c)) =~= Seq::<ConsumerView>::empty());
    }
    while i < items.len()
        invariant
            i <= items@.len(),
            args_verdict(args@) is Ok,
            type_name_verdict(*self_ty) is Ok,
            init_method is Some <==> init_param_type is Some,
            items_scan(items@, None, Seq::empty()) == items_scan(
                items@.skip(i as int),
                match (init_method, init_param_type) {
                    (Some(m), Some(t)) => Some((m@, (t.tokens@, t.shape_view()))),
                    _ => None,
                },
                consumers@.map_values(|c: ConsumerMethod| consumer_view(c)),
            ),
        decreases items@.len() - i,
    {
        proof {
            assert(items@.skip(i as int).drop_first() =~= items@.skip(i + 1));
            assert(items@.skip(i as int)[0] == items@[i as int]);
        }
        let method = &items[i];
        if find_attr(&method.attrs, "initialize").is_some() {
            if init_method.is_some() {
                return Err(ERR_TWO_INITS);
            }
            init_method = Some(method.name.clone());
            let pos = typed_params(&method.inputs);
            proof {
                lemma_typed_positions(method.inputs@);
            }
            let ty = if pos.len() > 0 {
                match &method.inputs[pos[0]] {
                    ParamDesc::Typed { ty, .. } => ty.copy(),
                    ParamDesc::Receiver(_) => TypeDesc { tokens: String::from_str("()"), shape: TypeShape::Other },
                }
            } else {
                TypeDesc { tokens: String::from_str("()"), shape: TypeShape::Other }
            };
            init_param_type = Some(ty);
        }
        match take_message_consumer_attr(method) {
            Some(variant) => {
                let c = parse_consumer_method(method, variant)?;
                let ghost prev = consumers@;
                consumers.push(c);
                proof {
                    assert(consumers@.map_values(|c: ConsumerMethod| consumer_view(c)) =~= prev.map_values(
                        |c: ConsumerMethod| consumer_view(c),
                    ).push(consumer_view(c)));
                }
            },
            None => {},
        }
        i = i + 1;
    }
    proof {
        assert(items@.skip(items@.len() as int) =~= Seq::<MethodDesc>::empty());
    }
    if consumers.len() == 0 {
        return Err(ERR_NO_CONSUMERS);
    }
    let unit = TypeDesc { tokens: String::from_str("()"), shape: TypeShape::Other };
    let (init, init_param_type) = match (init_method, init_param_type) {
        (Some(method), Some(param_ty)) => {
            let with_param = !same_type(&param_ty, &unit);
            (InitPlan::Call { method, with_param }, param_ty)
        },
        _ => (InitPlan::Default, unit),
    };
    Ok(ActorPlan { args: parsed_args, enum_name, consumers, init, init_param_type })
}

} // verus!
