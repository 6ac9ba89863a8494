//! Test plans from gRPC services: one unary call for every method, with an example
//! of its input message.
use crate::contract::{comes_to, GenError, GenErrorView, GenOptions, Generated};
use crate::float::Double;
use crate::json::{self, Json, JsonView, Number, NumberView};
use crate::plan::{
    self, Conversion, ConversionWarning, GrpcOptions, GrpcView, RequestStep, RequestView, Step,
    StepView,
};
use crate::text;
use vstd::prelude::*;

verus! {

/// How deep the example of a message goes.
pub const MAX_DEPTH: usize = 6;

/// What a field holds.
#[derive(Debug)]
pub enum FieldKind {
    /// A floating-point number of either width.
    Real,
    /// A whole number of any width and encoding.
    Whole,
    Bool,
    Text,
    Bytes,
    /// The message at a position among all messages.
    Message(usize),
    /// An enum, with the name of its first value if it has one.
    Enum(Option<String>),
}

/// How often a field occurs.
#[derive(Clone, Copy, Debug, PartialEq, Eq, Structural)]
pub enum Cardinality {
    One,
    List,
    Keyed,
}

/// A field of a message.
#[derive(Debug)]
pub struct FieldDef {
    pub name: String,
    pub cardinality: Cardinality,
    pub kind: FieldKind,
}

/// A message with its fields.
#[derive(Debug)]
pub struct MessageDef {
    pub fields: Vec<FieldDef>,
}

/// A method with the position of its input message.
#[derive(Debug)]
pub struct MethodDef {
    pub name: String,
    pub input: usize,
}

/// A service with its methods.
#[derive(Debug)]
pub struct ServiceDef {
    pub full_name: String,
    pub methods: Vec<MethodDef>,
}

/// The messages and the services of compiled `.proto` files.
#[derive(Debug)]
pub struct Descriptors {
    pub messages: Vec<MessageDef>,
    pub services: Vec<ServiceDef>,
}

impl FieldKind {
    /// Whether the kind names a message that is there.
    pub open spec fn is_known(&self, count: nat) -> bool {
        match self {
            FieldKind::Message(id) => *id < count,
            _ => true,
        }
    }
}

impl Descriptors {
    /// Whether a message names only messages that are there.
    pub open spec fn is_closed(&self, id: int) -> bool {
        forall|k: int|
            0 <= k < self.messages@[id].fields@.len() ==> (
            #[trigger] self.messages@[id].fields@[k]).kind.is_known(self.messages@.len())
    }

    /// Whether a service's methods take only messages that are there.
    pub open spec fn is_served(&self, id: int) -> bool {
        forall|k: int|
            0 <= k < self.services@[id].methods@.len() ==> (
            #[trigger] self.services@[id].methods@[k]).input < self.messages@.len()
    }

    /// Whether every message that is named is there.
    pub open spec fn is_valid(&self) -> bool {
        &&& forall|id: int| 0 <= id < self.messages@.len() ==> #[trigger] self.is_closed(id)
        &&& forall|id: int| 0 <= id < self.services@.len() ==> #[trigger] self.is_served(id)
    }

    /// Whether every message that is named is there.
    pub fn valid(&self) -> (r: bool)
        ensures
            r == self.is_valid(),
    {
        let mut i: usize = 0;
        while i < self.messages.len()
            invariant
                i <= self.messages@.len(),
                forall|id: int| 0 <= id < i ==> #[trigger] self.is_closed(id),
            decreases self.messages@.len() - i,
        {
            let mut k: usize = 0;
            while k < self.messages[i].fields.len()
                invariant
                    i < self.messages@.len(),
                    k <= self.messages@[i as int].fields@.len(),
                    forall|j: int|
                        0 <= j < k ==> (
                        #[trigger] self.messages@[i as int].fields@[j]).kind.is_known(
                            self.messages@.len(),
                        ),
                decreases self.messages@[i as int].fields@.len() - k,
            {
                if let FieldKind::Message(id) = &self.messages[i].fields[k].kind {
                    if *id >= self.messages.len() {
                        proof {
                            assert(!self.messages@[i as int].fields@[k as int].kind.is_known(
                                self.messages@.len(),
                            ));
                            assert(!self.is_closed(i as int));
                        }
                        return false;
                    }
                }
                k += 1;
            }
            proof {
                assert(self.is_closed(i as int));
            }
            i += 1;
        }
        let mut i: usize = 0;
        while i < self.services.len()
            invariant
                i <= self.services@.len(),
                forall|id: int| 0 <= id < i ==> #[trigger] self.is_served(id),
            decreases self.services@.len() - i,
        {
            let mut k: usize = 0;
            while k < self.services[i].methods.len()
                invariant
                    i < self.services@.len(),
                    k <= self.services@[i as int].methods@.len(),
                    forall|j: int|
                        0 <= j < k ==> (#[trigger] self.services@[i as int].methods@[j]).input
                            < self.messages@.len(),
                decreases self.services@[i as int].methods@.len() - k,
            {
                if self.services[i].methods[k].input >= self.messages.len() {
                    proof {
                        assert(!self.is_served(i as int));
                    }
                    return false;
                }
                k += 1;
            }
            proof {
                assert(self.is_served(i as int));
            }
            i += 1;
        }
        true
    }
}

/// An example for a message, met at a depth: every field by its name.
pub open spec fn message_of(messages: Seq<MessageDef>, id: int, depth: int) -> JsonView
    decreases MAX_DEPTH + 1 - depth, 2int, 0int,
{
    if depth > MAX_DEPTH {
        JsonView::Object(Seq::empty())
    } else {
        JsonView::Object(
            fields_of(messages, messages[id].fields@, messages[id].fields@.len() as int, depth),
        )
    }
}

/// Examples for the first `n` fields of a message.
pub open spec fn fields_of(
    messages: Seq<MessageDef>,
    fields: Seq<FieldDef>,
    n: int,
    depth: int,
) -> Seq<(Seq<char>, JsonView)>
    decreases MAX_DEPTH + 1 - depth, 1int, n,
{
    if n <= 0 || depth > MAX_DEPTH {
        Seq::empty()
    } else {
        let field = fields[n - 1];
        json::with_member(
            fields_of(messages, fields, n - 1, depth),
            field.name@,
            match field.cardinality {
                Cardinality::List => JsonView::Array(seq![value_of(messages, field, depth)]),
                Cardinality::Keyed => JsonView::Object(Seq::empty()),
                Cardinality::One => value_of(messages, field, depth),
            },
        )
    }
}

/// An example for one value of a field.
pub open spec fn value_of(messages: Seq<MessageDef>, field: FieldDef, depth: int) -> JsonView
    decreases MAX_DEPTH + 1 - depth, 0int, 0int,
{
    match field.kind {
        FieldKind::Real => JsonView::Number(NumberView::Float(0)),
        FieldKind::Whole => JsonView::Number(NumberView::Int(0)),
        FieldKind::Bool => JsonView::Bool(false),
        FieldKind::Text => JsonView::Text("string"@),
        FieldKind::Bytes => JsonView::Text(""@),
        FieldKind::Message(id) => if depth > MAX_DEPTH {
            JsonView::Null
        } else {
            message_of(messages, id as int, depth + 1)
        },
        FieldKind::Enum(Some(name)) => JsonView::Text(name@),
        FieldKind::Enum(None) => JsonView::Number(NumberView::Int(0)),
    }
}

fn example_message(pool: &Descriptors, id: usize, depth: usize) -> (r: Json)
    requires
        pool.is_valid(),
        id < pool.messages@.len(),
        depth <= MAX_DEPTH + 1,
    ensures
        r@ == message_of(pool.messages@, id as int, depth as int),
    decreases MAX_DEPTH + 1 - depth, 2int,
{
    broadcast use json::group_json;

    let mut members: Vec<(String, Json)> = Vec::new();
    proof {
        assert(json::member_meanings(members@) =~= Seq::empty());
        assert(pool.is_closed(id as int));
    }
    if depth > MAX_DEPTH {
        return Json::Object(members);
    }
    let fields = &pool.messages[id].fields;
    let mut i: usize = 0;
    while i < fields.len()
        invariant
            i <= fields@.len(),
            pool.is_valid(),
            forall|k: int|
                0 <= k < fields@.len() ==> (#[trigger] fields@[k]).kind.is_known(
                    pool.messages@.len(),
                ),
            depth <= MAX_DEPTH,
            json::member_meanings(members@) == fields_of(
                pool.messages@,
                fields@,
                i as int,
                depth as int,
            ),
        decreases fields@.len() - i,
    {
        let field = &fields[i];
        let value = match field.cardinality {
            Cardinality::List => {
                let item = field_example(pool, field, depth);
                let ghost meant = item@;
                let items = vec![item];
                proof {
                    assert(json::meanings(items@) =~= seq![meant]);
                    json::array_meaning(items);
                }
                Json::Array(items)
            },
            Cardinality::Keyed => {
                let none: Vec<(String, Json)> = Vec::new();
                proof {
                    assert(json::member_meanings(none@) =~= Seq::empty());
                    json::object_meaning(none);
                }
                Json::Object(none)
            },
            Cardinality::One => field_example(pool, field, depth),
        };
        json::put_member(&mut members, field.name.as_str(), value);
        i += 1;
    }
    Json::Object(members)
}

fn field_example(pool: &Descriptors, field: &FieldDef, depth: usize) -> (r: Json)
    requires
        pool.is_valid(),
        field.kind.is_known(pool.messages@.len()),
        depth <= MAX_DEPTH,
    ensures
        r@ == value_of(pool.messages@, *field, depth as int),
    decreases MAX_DEPTH + 1 - depth, 0int,
{
    match &field.kind {
        FieldKind::Real => Json::Number(Number::Float(Double { bits: 0 })),
        FieldKind::Whole => Json::Number(Number::Unsigned(0)),
        FieldKind::Bool => Json::Bool(false),
        FieldKind::Text => Json::Text("string".to_owned()),
        FieldKind::Bytes => Json::Text("".to_owned()),
        FieldKind::Message(id) => example_message(pool, *id, depth + 1),
        FieldKind::Enum(Some(name)) => Json::Text(name.clone()),
        FieldKind::Enum(None) => Json::Number(Number::Unsigned(0)),
    }
}

/// The call of a method.
pub open spec fn method_request(
    pool: Descriptors,
    service: ServiceDef,
    method: MethodDef,
    proto: Seq<char>,
    proto_dirs: Seq<Seq<char>>,
    url: Seq<char>,
) -> RequestView {
    RequestView {
        name: Some(service.full_name@ + "/"@ + method.name@),
        grpc: Some(
            GrpcView {
                proto_files: seq![proto],
                proto_includes: proto_dirs,
                service: service.full_name@,
                method: method.name@,
                message: Some(message_of(pool.messages@, method.input as int, 0)),
            },
        ),
        ..plan::bare_request(url)
    }
}

/// The calls of the first `n` methods of a service.
pub open spec fn method_steps(
    pool: Descriptors,
    service: ServiceDef,
    n: int,
    proto: Seq<char>,
    proto_dirs: Seq<Seq<char>>,
    url: Seq<char>,
) -> Seq<StepView> {
    Seq::new(
        n as nat,
        |i: int|
            StepView::Request(
                method_request(pool, service, service.methods@[i], proto, proto_dirs, url),
            ),
    )
}

/// The calls of the methods of the first `n` services.
pub open spec fn service_steps(
    pool: Descriptors,
    n: int,
    proto: Seq<char>,
    proto_dirs: Seq<Seq<char>>,
    url: Seq<char>,
) -> Seq<StepView>
    decreases n,
{
    if n <= 0 {
        Seq::empty()
    } else {
        let service = pool.services@[n - 1];
        service_steps(pool, n - 1, proto, proto_dirs, url) + method_steps(
            pool,
            service,
            service.methods@.len() as int,
            proto,
            proto_dirs,
            url,
        )
    }
}

/// What compiled `.proto` files come to.
pub open spec fn grpc_outcome(
    pool: Descriptors,
    proto: Seq<char>,
    proto_dirs: Seq<Seq<char>>,
    opts: GenOptions,
) -> Result<Generated, GenErrorView> {
    let url = match opts.base_url {
        Some(u) => u@,
        None => "grpc://localhost:50051"@,
    };
    let flow = service_steps(pool, pool.services@.len() as int, proto, proto_dirs, url);
    if flow.len() == 0 {
        Err(GenErrorView::Grpc("no services/methods found in the proto"@))
    } else {
        Ok(
            Generated {
                plan: plan::generated_plan(
                    "grpc"@,
                    "Generated from a .proto by `loadr gen`. Review and set real load."@,
                    opts.base_url.deep_view(),
                    "api"@,
                    flow,
                ),
                warnings: seq![
                    (
                        "scenario `api`"@,
                        "generated "@ + text::decimal(flow.len())
                            + " method(s); set the gRPC endpoint with --base-url (grpc://host:port) and real load"@,
                    ),
                ],
            },
        )
    }
}

/// Generates a plan from the descriptors of a compiled `.proto` file: its path, the
/// directories that were searched for what it imports, and what it declares.
pub fn gen_grpc(
    pool: &Descriptors,
    proto: &str,
    proto_dirs: &Vec<String>,
    opts: &GenOptions,
) -> (r: Result<Conversion, GenError>)
    requires
        pool.is_valid(),
    ensures
        comes_to(r, grpc_outcome(*pool, proto@, proto_dirs.deep_view(), *opts)),
{
    broadcast use plan::group_plan;

    let url = match &opts.base_url {
        Some(u) => u.clone(),
        None => "grpc://localhost:50051".to_owned(),
    };
    let ghost dirs = proto_dirs.deep_view();
    let mut flow: Vec<Step> = Vec::new();
    let mut i: usize = 0;
    proof {
        assert(plan::flow_meaning(flow@) =~= Seq::empty());
    }
    while i < pool.services.len()
        invariant
            i <= pool.services@.len(),
            pool.is_valid(),
            dirs == proto_dirs.deep_view(),
            plan::flow_meaning(flow@) == service_steps(*pool, i as int, proto@, dirs, url@),
        decreases pool.services@.len() - i,
    {
        let service = &pool.services[i];
        let ghost earlier = plan::flow_meaning(flow@);
        proof {
            assert(pool.is_served(i as int));
            assert(earlier + method_steps(*pool, *service, 0, proto@, dirs, url@) =~= earlier);
        }
        let mut k: usize = 0;
        while k < service.methods.len()
            invariant
                k <= service.methods@.len(),
                pool.is_valid(),
                forall|j: int|
                    0 <= j < service.methods@.len() ==> (#[trigger] service.methods@[j]).input
                        < pool.messages@.len(),
                dirs == proto_dirs.deep_view(),
                plan::flow_meaning(flow@) == earlier + method_steps(
                    *pool,
                    *service,
                    k as int,
                    proto@,
                    dirs,
                    url@,
                ),
            decreases service.methods@.len() - k,
        {
            let method = &service.methods[k];
            let message = example_message(pool, method.input, 0);
            let mut name = service.full_name.clone();
            name.append("/");
            name.append(method.name.as_str());
            let proto_files = vec![proto.to_owned()];
            proof {
                assert(proto_files.deep_view() =~= seq![proto@]);
            }
            let mut step = RequestStep::bare(url.clone());
            step.name = Some(name);
            step.grpc = Some(
                GrpcOptions {
                    proto_files,
                    proto_includes: text::copy_all(proto_dirs),
                    service: service.full_name.clone(),
                    method: method.name.clone(),
                    message: Some(message),
                },
            );
            let ghost meant = StepView::Request(step@);
            let ghost done = plan::flow_meaning(flow@);
            flow.push(Step::Request(Box::new(step)));
            proof {
                assert(meant == StepView::Request(
                    method_request(*pool, *service, *method, proto@, dirs, url@),
                ));
                assert(plan::flow_meaning(flow@) == done.push(meant));
                assert(done.push(meant) =~= earlier + method_steps(
                    *pool,
                    *service,
                    k + 1,
                    proto@,
                    dirs,
                    url@,
                ));
            }
            k += 1;
        }
        i += 1;
    }
    if flow.len() == 0 {
        return Err(GenError::Grpc("no services/methods found in the proto".to_owned()));
    }
    let mut message = "generated ".to_owned();
    message.append(text::usize_text(flow.len()).as_str());
    message.append(
        " method(s); set the gRPC endpoint with --base-url (grpc://host:port) and real load",
    );
    let plan = plan::generate_plan(
        "grpc".to_owned(),
        "Generated from a .proto by `loadr gen`. Review and set real load.",
        text::copy_option(&opts.base_url),
        "api",
        flow,
    );
    let ghost last = ("scenario `api`"@, message@);
    let warnings = vec![ConversionWarning { element: "scenario `api`".to_owned(), message }];
    proof {
        assert(plan::warning_meanings(warnings@) =~= seq![last]);
    }
    Ok(Conversion { plan, warnings })
}

/// How many methods the first `n` services have.
pub open spec fn method_count(pool: Descriptors, n: int) -> nat
    decreases n,
{
    if n <= 0 {
        0
    } else {
        method_count(pool, n - 1) + pool.services@[n - 1].methods@.len()
    }
}

/// There is one call for every method.
pub proof fn every_method_is_called_once(
    pool: Descriptors,
    n: int,
    proto: Seq<char>,
    proto_dirs: Seq<Seq<char>>,
    url: Seq<char>,
)
    ensures
        service_steps(pool, n, proto, proto_dirs, url).len() == method_count(pool, n),
    decreases n,
{
    if n > 0 {
        every_method_is_called_once(pool, n - 1, proto, proto_dirs, url);
    }
}

proof fn lemma_fields(
    messages: Seq<MessageDef>,
    fields: Seq<FieldDef>,
    n: int,
    depth: int,
    k: int,
)
    requires
        depth <= MAX_DEPTH,
    ensures
        json::sorted(fields_of(messages, fields, n, depth)),
        0 <= k < n ==> json::member(fields_of(messages, fields, n, depth), fields[k].name@) is Some,
    decreases n,
{
    if n > 0 {
        lemma_fields(messages, fields, n - 1, depth, k);
        let earlier = fields_of(messages, fields, n - 1, depth);
        let field = fields[n - 1];
        let value = match field.cardinality {
            Cardinality::List => JsonView::Array(seq![value_of(messages, field, depth)]),
            Cardinality::Keyed => JsonView::Object(Seq::empty()),
            Cardinality::One => value_of(messages, field, depth),
        };
        json::with_member_keeps_order(earlier, field.name@, value);
        json::with_member_is_read_back(earlier, field.name@, value, fields[k].name@);
    }
}

/// The example for a message has every field of the message.
pub proof fn every_field_is_filled(messages: Seq<MessageDef>, id: int, k: int)
    requires
        0 <= id < messages.len(),
        0 <= k < messages[id].fields@.len(),
    ensures
        message_of(messages, id, 0).get(messages[id].fields@[k].name@) is Some,
{
    lemma_fields(messages, messages[id].fields@, messages[id].fields@.len() as int, 0, k);
}

/// The example for a field is of its type: zero for numbers, `false`, a text, the name
/// of an enum's first value, or the example of the message, one deeper.
pub proof fn fields_are_of_their_type(messages: Seq<MessageDef>, field: FieldDef, depth: int)
    requires
        0 <= depth <= MAX_DEPTH,
    ensures
        field.kind == FieldKind::Real ==> value_of(messages, field, depth) == JsonView::Number(
            NumberView::Float(0),
        ),
        field.kind == FieldKind::Whole ==> value_of(messages, field, depth) == JsonView::Number(
            NumberView::Int(0),
        ),
        field.kind == FieldKind::Bool ==> value_of(messages, field, depth) == JsonView::Bool(false),
        field.kind == FieldKind::Text ==> value_of(messages, field, depth) == JsonView::Text(
            "string"@,
        ),
        field.kind == FieldKind::Bytes ==> value_of(messages, field, depth) == JsonView::Text(
            Seq::empty(),
        ),
        field.kind is Message ==> value_of(messages, field, depth) == message_of(
            messages,
            field.kind->Message_0 as int,
            depth + 1,
        ),
        field.kind is Enum && field.kind->Enum_0 is Some ==> value_of(messages, field, depth)
            == JsonView::Text(field.kind->Enum_0->Some_0@),
        field.kind is Enum && field.kind->Enum_0 is None ==> value_of(messages, field, depth)
            == JsonView::Number(NumberView::Int(0)),
{
    reveal_strlit("");
    assert(""@ =~= Seq::empty());
}

/// A field alone has its example, a repeated field has one in a list, and a map is
/// empty; each field sets its own member and no other.
pub proof fn fields_are_set_by_name(
    messages: Seq<MessageDef>,
    fields: Seq<FieldDef>,
    n: int,
    depth: int,
    key: Seq<char>,
)
    requires
        0 < n <= fields.len(),
        0 <= depth <= MAX_DEPTH,
    ensures
        fields_of(messages, fields, 0, depth).len() == 0,
        fields[n - 1].name@ == key ==> json::member(fields_of(messages, fields, n, depth), key)
            == Some(
            match fields[n - 1].cardinality {
                Cardinality::One => value_of(messages, fields[n - 1], depth),
                Cardinality::List => JsonView::Array(
                    seq![value_of(messages, fields[n - 1], depth)],
                ),
                Cardinality::Keyed => JsonView::Object(Seq::empty()),
            },
        ),
        fields[n - 1].name@ != key ==> json::member(fields_of(messages, fields, n, depth), key)
            == json::member(fields_of(messages, fields, n - 1, depth), key),
{
    lemma_fields(messages, fields, n - 1, depth, 0);
    let field = fields[n - 1];
    let value = match field.cardinality {
        Cardinality::List => JsonView::Array(seq![value_of(messages, field, depth)]),
        Cardinality::Keyed => JsonView::Object(Seq::empty()),
        Cardinality::One => value_of(messages, field, depth),
    };
    json::with_member_is_read_back(
        fields_of(messages, fields, n - 1, depth),
        field.name@,
        value,
        key,
    );
}

/// The example for a message has the members of all its fields.
pub proof fn a_message_has_its_fields(messages: Seq<MessageDef>, id: int, depth: int)
    requires
        0 <= id < messages.len(),
        0 <= depth <= MAX_DEPTH,
    ensures
        message_of(messages, id, depth) == JsonView::Object(
            fields_of(messages, messages[id].fields@, messages[id].fields@.len() as int, depth),
        ),
        message_of(messages, id, MAX_DEPTH + 1) == JsonView::Object(Seq::empty()),
{
}

/// The calls of a service come after those of the services before it, in the order of
/// its methods. Each names its service and its method and passes an example of what
/// the method takes.
pub proof fn services_are_called_in_order(
    pool: Descriptors,
    n: int,
    proto: Seq<char>,
    proto_dirs: Seq<Seq<char>>,
    url: Seq<char>,
    k: int,
)
    requires
        0 < n <= pool.services@.len(),
        0 <= k < pool.services@[n - 1].methods@.len(),
    ensures
        ({
            let service = pool.services@[n - 1];
            let method = service.methods@[k];
            let before = service_steps(pool, n - 1, proto, proto_dirs, url);
            let after = service_steps(pool, n, proto, proto_dirs, url);
            let step = after[before.len() + k];
            let call = step->Request_0.grpc->Some_0;
            &&& after.take(before.len() as int) == before
            &&& after.len() == before.len() + service.methods@.len()
            &&& step is Request
            &&& step->Request_0.url == url
            &&& step->Request_0.name == Some(service.full_name@ + seq!['/'] + method.name@)
            &&& step->Request_0.grpc is Some
            &&& call.proto_files == seq![proto]
            &&& call.proto_includes == proto_dirs
            &&& call.service == service.full_name@
            &&& call.method == method.name@
            &&& call.message == Some(message_of(pool.messages@, method.input as int, 0))
        }),
{
    reveal_strlit("/");
    assert("/"@ =~= seq!['/']);
    let before = service_steps(pool, n - 1, proto, proto_dirs, url);
    let after = service_steps(pool, n, proto, proto_dirs, url);
    assert(after.take(before.len() as int) =~= before);
}

/// A plan calls every method of every service, at the address that is asked for;
/// without methods there is none.
pub proof fn services_become_a_plan(
    pool: Descriptors,
    proto: Seq<char>,
    proto_dirs: Seq<Seq<char>>,
    opts: GenOptions,
)
    ensures
        ({
            let url = match opts.base_url {
                Some(u) => u@,
                None => "grpc://localhost:50051"@,
            };
            let n = pool.services@.len() as int;
            let r = grpc_outcome(pool, proto, proto_dirs, opts);
            &&& r is Err <==> method_count(pool, n) == 0
            &&& r is Err ==> r->Err_0 is Grpc
            &&& r is Ok ==> r->Ok_0.plan == plan::generated_plan(
                "grpc"@,
                "Generated from a .proto by `loadr gen`. Review and set real load."@,
                opts.base_url.deep_view(),
                "api"@,
                service_steps(pool, n, proto, proto_dirs, url),
            )
        }),
{
    let url = match opts.base_url {
        Some(u) => u@,
        None => "grpc://localhost:50051"@,
    };
    every_method_is_called_once(pool, pool.services@.len() as int, proto, proto_dirs, url);
}

} // verus!
