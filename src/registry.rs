use vstd::prelude::*;
use vstd::string::*;
use crate::session::{arg_views, Arg, CallView, ToolCall};
use crate::text::concat;

verus! {

/// The capabilities the agent can call.
#[derive(Debug, Clone, Copy, PartialEq, Eq, Structural)]
pub enum ToolKind {
    FlightsBetween,
    HotelsInCity,
    TrainsBetween,
    TrainDetails,
    TrainSeatsAvailable,
    SiteSeeing,
}

/// A tool: the name the model calls it by, what it runs, and the arguments it takes (all of
/// them required).
pub struct ToolDescriptor {
    pub name: String,
    pub kind: ToolKind,
    pub params: Vec<String>,
}

pub struct DescriptorView {
    pub name: Seq<char>,
    pub kind: ToolKind,
    pub params: Seq<Seq<char>>,
}

impl View for ToolDescriptor {
    type V = DescriptorView;

    open spec fn view(&self) -> DescriptorView {
        DescriptorView {
            name: self.name@,
            kind: self.kind,
            params: self.params@.map_values(|p: String| p@),
        }
    }
}

/// The first descriptor named `name`.
pub open spec fn lookup(tools: Seq<DescriptorView>, name: Seq<char>) -> Option<DescriptorView>
    decreases tools.len(),
{
    if tools.len() == 0 {
        None
    } else if tools[0].name == name {
        Some(tools[0])
    } else {
        lookup(tools.drop_first(), name)
    }
}

/// The arguments of `call` are exactly the parameters of `d`: each parameter is given, and
/// nothing else is.
pub open spec fn args_fit(d: DescriptorView, call: CallView) -> bool {
    &&& forall|i: int| 0 <= i < d.params.len() ==> #[trigger] given(call.args, d.params[i])
    &&& forall|j: int| 0 <= j < call.args.len() ==> d.params.contains((#[trigger] call.args[j]).0)
}

/// Some argument is named `key`.
pub open spec fn given(args: Seq<(Seq<char>, Seq<char>)>, key: Seq<char>) -> bool {
    exists|j: int| 0 <= j < args.len() && (#[trigger] args[j]).0 == key
}

/// What the registry makes of `call`: the capability to run, or the error to hand back to
/// the model in place of a result.
pub open spec fn dispatch(tools: Seq<DescriptorView>, call: CallView) -> Result<ToolKind, Seq<char>> {
    match lookup(tools, call.name) {
        None => Err("unknown tool: "@ + call.name),
        Some(d) => if args_fit(d, call) {
            Ok(d.kind)
        } else {
            Err("arguments do not match the schema of "@ + call.name)
        },
    }
}

/// The tools, registered once.
pub struct Registry {
    tools: Vec<ToolDescriptor>,
}

impl View for Registry {
    type V = Seq<DescriptorView>;

    closed spec fn view(&self) -> Seq<DescriptorView> {
        self.tools@.map_values(|t: ToolDescriptor| t@)
    }
}

fn strings(items: &[&str]) -> (r: Vec<String>)
    ensures
        r@.map_values(|p: String| p@) == items@.map_values(|p: &str| p@),
{
    let mut r: Vec<String> = Vec::new();
    let mut i: usize = 0;
    while i < items.len()
        invariant
            i <= items@.len(),
            r@.map_values(|p: String| p@) == items@.take(i as int).map_values(|p: &str| p@),
        decreases items.len() - i,
    {
        let s = String::from_str(items[i]);
        let ghost before = r@;
        r.push(s);
        assert(r@.map_values(|p: String| p@) =~= before.map_values(|p: String| p@).push(s@));
        assert(items@.take(i + 1).map_values(|p: &str| p@) =~= items@.take(i as int).map_values(
            |p: &str| p@,
        ).push(items@[i as int]@));
        i += 1;
    }
    assert(items@.take(items@.len() as int) =~= items@);
    r
}

fn descriptor(name: &str, kind: ToolKind, params: &[&str]) -> (r: ToolDescriptor)
    ensures
        r@ == (DescriptorView {
            name: name@,
            kind,
            params: params@.map_values(|p: &str| p@),
        }),
{
    ToolDescriptor { name: String::from_str(name), kind, params: strings(params) }
}

fn contains_name(names: &Vec<String>, key: &String) -> (r: bool)
    ensures
        r == names@.map_values(|p: String| p@).contains(key@),
{
    let ghost v = names@.map_values(|p: String| p@);
    let mut i: usize = 0;
    while i < names.len()
        invariant
            i <= names@.len(),
            v == names@.map_values(|p: String| p@),
            forall|j: int| 0 <= j < i ==> v[j] != key@,
        decreases names.len() - i,
    {
        if names[i] == *key {
            assert(v[i as int] == key@);
            return true;
        }
        i += 1;
    }
    false
}

fn has_arg(args: &Vec<Arg>, key: &String) -> (r: bool)
    ensures
        r == given(arg_views(args@), key@),
{
    let ghost av = arg_views(args@);
    let mut i: usize = 0;
    while i < args.len()
        invariant
            i <= args@.len(),
            av == arg_views(args@),
            forall|j: int| 0 <= j < i ==> (#[trigger] av[j]).0 != key@,
        decreases args.len() - i,
    {
        assert(av[i as int] == args@[i as int]@);
        if args[i].key == *key {
            return true;
        }
        i += 1;
    }
    false
}

fn fits(d: &ToolDescriptor, call: &ToolCall) -> (r: bool)
    ensures
        r == args_fit(d@, call@),
{
    let ghost dv = d@;
    let ghost cv = call@;
    let mut i: usize = 0;
    while i < d.params.len()
        invariant
            i <= d.params@.len(),
            dv == d@,
            cv == call@,
            forall|k: int| 0 <= k < i ==> #[trigger] given(cv.args, dv.params[k]),
        decreases d.params.len() - i,
    {
        assert(dv.params[i as int] == d.params@[i as int]@);
        if !has_arg(&call.args, &d.params[i]) {
            assert(!given(cv.args, dv.params[i as int]));
            return false;
        }
        i += 1;
    }
    let mut j: usize = 0;
    while j < call.args.len()
        invariant
            j <= call.args@.len(),
            dv == d@,
            cv == call@,
            forall|k: int| 0 <= k < dv.params.len() ==> #[trigger] given(cv.args, dv.params[k]),
            forall|m: int| 0 <= m < j ==> dv.params.contains((#[trigger] cv.args[m]).0),
        decreases call.args.len() - j,
    {
        assert(cv.args[j as int] == call.args@[j as int]@);
        if !contains_name(&d.params, &call.args[j].key) {
            return false;
        }
        j += 1;
    }
    true
}

impl Registry {
    /// The travel tools: flight, hotel and train searches, train details and seats, and
    /// sights of a place.
    pub fn standard() -> (r: Registry)
        ensures
            r@ == seq![
                DescriptorView {
                    name: "flights_between"@,
                    kind: ToolKind::FlightsBetween,
                    params: seq![
                        "source"@,
                        "destination"@,
                        "least_departure"@,
                        "adult_count"@,
                        "currency_code"@,
                    ],
                },
                DescriptorView {
                    name: "hotels_in_city"@,
                    kind: ToolKind::HotelsInCity,
                    params: seq!["city_code"@, "currency_code"@, "budget"@],
                },
                DescriptorView {
                    name: "trains_between"@,
                    kind: ToolKind::TrainsBetween,
                    params: seq!["source"@, "destination"@, "date"@],
                },
                DescriptorView {
                    name: "train_details"@,
                    kind: ToolKind::TrainDetails,
                    params: seq!["train_number"@],
                },
                DescriptorView {
                    name: "train_seats_available"@,
                    kind: ToolKind::TrainSeatsAvailable,
                    params: seq![
                        "train_number"@,
                        "from_station"@,
                        "to_station"@,
                        "date"@,
                        "class"@,
                        "quota"@,
                    ],
                },
                DescriptorView {
                    name: "get_site_seeing"@,
                    kind: ToolKind::SiteSeeing,
                    params: seq!["location"@],
                },
            ],
    {
        let mut tools: Vec<ToolDescriptor> = Vec::new();
        let a = ["source", "destination", "least_departure", "adult_count", "currency_code"];
        tools.push(descriptor("flights_between", ToolKind::FlightsBetween, &a));
        let b = ["city_code", "currency_code", "budget"];
        tools.push(descriptor("hotels_in_city", ToolKind::HotelsInCity, &b));
        let c = ["source", "destination", "date"];
        tools.push(descriptor("trains_between", ToolKind::TrainsBetween, &c));
        let d = ["train_number"];
        tools.push(descriptor("train_details", ToolKind::TrainDetails, &d));
        let e = ["train_number", "from_station", "to_station", "date", "class", "quota"];
        tools.push(descriptor("train_seats_available", ToolKind::TrainSeatsAvailable, &e));
        let f = ["location"];
        tools.push(descriptor("get_site_seeing", ToolKind::SiteSeeing, &f));
        let r = Registry { tools };
        assert(a@.map_values(|p: &str| p@) =~= seq![
            "source"@,
            "destination"@,
            "least_departure"@,
            "adult_count"@,
            "currency_code"@,
        ]);
        assert(b@.map_values(|p: &str| p@) =~= seq!["city_code"@, "currency_code"@, "budget"@]);
        assert(c@.map_values(|p: &str| p@) =~= seq!["source"@, "destination"@, "date"@]);
        assert(d@.map_values(|p: &str| p@) =~= seq!["train_number"@]);
        assert(e@.map_values(|p: &str| p@) =~= seq![
            "train_number"@,
            "from_station"@,
            "to_station"@,
            "date"@,
            "class"@,
            "quota"@,
        ]);
        assert(f@.map_values(|p: &str| p@) =~= seq!["location"@]);
        assert(r@ =~= seq![
            r.tools@[0]@,
            r.tools@[1]@,
            r.tools@[2]@,
            r.tools@[3]@,
            r.tools@[4]@,
            r.tools@[5]@,
        ]);
        r
    }

    /// Resolves `call` to the capability to run, or to the error that stands in for its
    /// result: an unknown name, or arguments that are not exactly the tool's parameters.
    pub fn resolve(&self, call: &ToolCall) -> (r: Result<ToolKind, String>)
        ensures
            match r {
                Ok(k) => dispatch(self@, call@) == Ok::<ToolKind, Seq<char>>(k),
                Err(m) => dispatch(self@, call@) == Err::<ToolKind, Seq<char>>(m@),
            },
    {
        let ghost tv = self@;
        let mut i: usize = 0;
        assert(tv.subrange(0, tv.len() as int) =~= tv);
        while i < self.tools.len()
            invariant
                i <= self.tools@.len(),
                tv == self@,
                lookup(tv, call@.name) == lookup(tv.subrange(i as int, tv.len() as int), call@.name),
            decreases self.tools.len() - i,
        {
            let ghost rest = tv.subrange(i as int, tv.len() as int);
            assert(rest.drop_first() =~= tv.subrange(i + 1, tv.len() as int));
            assert(rest[0] == self.tools@[i as int]@);
            if self.tools[i].name == call.name {
                let d = &self.tools[i];
                if fits(d, call) {
                    return Ok(d.kind);
                } else {
                    return Err(concat("arguments do not match the schema of ", call.name.as_str()));
                }
            }
            i += 1;
        }
        assert(tv.subrange(i as int, tv.len() as int) =~= Seq::<DescriptorView>::empty());
        Err(concat("unknown tool: ", call.name.as_str()))
    }
}

} // verus!
