//! SQLite JSON paths (`$`, then `.name` and `[digits]` steps) and the
//! Catalog JSON Schemas they reach.
use vstd::prelude::*;
use crate::emit::EmitError;
use crate::identity::{JsonSchemaType, JsonValueSchema};
use crate::policy::is_digit_char;
use crate::text::{owned, push_char, text_chars};

verus! {

/// One step of a JSON path.
#[derive(Clone, Debug, PartialEq, Eq)]
pub enum JsonPathSegment {
    Property(String),
    Index,
}

/// A step of a JSON path by its text.
pub enum JsonPathStep {
    Property(Seq<char>),
    Index,
}

impl View for JsonPathSegment {
    type V = JsonPathStep;

    open spec fn view(&self) -> JsonPathStep {
        match self {
            JsonPathSegment::Property(name) => JsonPathStep::Property(name@),
            JsonPathSegment::Index => JsonPathStep::Index,
        }
    }
}

pub open spec fn is_step_start(c: char) -> bool {
    c == '.' || c == '['
}

/// The length of the property name at the start of `s`: everything before
/// the next `.` or `[`.
pub open spec fn name_len(s: Seq<char>) -> nat
    decreases s.len(),
{
    if s.len() == 0 || is_step_start(s[0]) {
        0
    } else {
        1 + name_len(s.drop_first())
    }
}

/// The number of decimal digits at the start of `s`.
pub open spec fn digit_len(s: Seq<char>) -> nat
    decreases s.len(),
{
    if s.len() == 0 || !is_digit_char(s[0]) {
        0
    } else {
        1 + digit_len(s.drop_first())
    }
}

pub proof fn lemma_name_len_bound(s: Seq<char>)
    ensures
        name_len(s) <= s.len(),
    decreases s.len(),
{
    if s.len() > 0 && !is_step_start(s[0]) {
        lemma_name_len_bound(s.drop_first());
    }
}

pub proof fn lemma_digit_len_bound(s: Seq<char>)
    ensures
        digit_len(s) <= s.len(),
    decreases s.len(),
{
    if s.len() > 0 && is_digit_char(s[0]) {
        lemma_digit_len_bound(s.drop_first());
    }
}

/// The steps that `s`, the text after `$`, spells, if it spells any.
pub open spec fn path_steps(s: Seq<char>) -> Option<Seq<JsonPathStep>>
    decreases s.len(),
{
    if s.len() == 0 {
        Some(seq![])
    } else if s[0] == '.' {
        let n = name_len(s.drop_first()) as int;
        if n == 0 {
            None
        } else {
            proof {
                lemma_name_len_bound(s.drop_first());
            }
            match path_steps(s.skip(1 + n)) {
                Some(t) => Some(seq![JsonPathStep::Property(s.subrange(1, 1 + n))] + t),
                None => None,
            }
        }
    } else if s[0] == '[' {
        let n = digit_len(s.drop_first()) as int;
        if n == 0 || 1 + n >= s.len() || s[1 + n] != ']' {
            None
        } else {
            match path_steps(s.skip(2 + n)) {
                Some(t) => Some(seq![JsonPathStep::Index] + t),
                None => None,
            }
        }
    } else {
        None
    }
}

/// The steps of the JSON path `p`, if it is one.
pub open spec fn json_path(p: Seq<char>) -> Option<Seq<JsonPathStep>> {
    if p.len() == 0 || p[0] != '$' {
        None
    } else {
        path_steps(p.drop_first())
    }
}

/// `prefix` followed by the steps of `rest`, if `rest` has any.
pub open spec fn prefixed(prefix: Seq<JsonPathStep>, rest: Option<Seq<JsonPathStep>>) -> Option<
    Seq<JsonPathStep>,
> {
    match rest {
        Some(t) => Some(prefix + t),
        None => None,
    }
}

pub open spec fn steps_of(segments: Seq<JsonPathSegment>) -> Seq<JsonPathStep> {
    segments.map_values(|s: JsonPathSegment| s@)
}

proof fn lemma_name_len_at(s: Seq<char>, m: int)
    requires
        0 <= m <= s.len(),
        forall|k: int| 0 <= k < m ==> !is_step_start(#[trigger] s[k]),
        m == s.len() || is_step_start(s[m]),
    ensures
        name_len(s) == m,
    decreases m,
{
    if m > 0 {
        assert forall|k: int| 0 <= k < m - 1 implies !is_step_start(#[trigger] s.drop_first()[k]) by {
            assert(s.drop_first()[k] == s[k + 1]);
        }
        lemma_name_len_at(s.drop_first(), m - 1);
    }
}

proof fn lemma_digit_len_at(s: Seq<char>, m: int)
    requires
        0 <= m <= s.len(),
        forall|k: int| 0 <= k < m ==> is_digit_char(#[trigger] s[k]),
        m == s.len() || !is_digit_char(s[m]),
    ensures
        digit_len(s) == m,
    decreases m,
{
    if m > 0 {
        assert forall|k: int| 0 <= k < m - 1 implies is_digit_char(#[trigger] s.drop_first()[k]) by {
            assert(s.drop_first()[k] == s[k + 1]);
        }
        lemma_digit_len_at(s.drop_first(), m - 1);
    }
}

fn invalid_path() -> (r: EmitError)
    ensures
        r matches EmitError::InvariantViolation(m) && m@ == "invalid SQLite JSON path"@,
{
    EmitError::InvariantViolation(owned("invalid SQLite JSON path"))
}

/// Splits a SQLite JSON path into its steps.
pub fn parse_json_path(path: &str) -> (r: Result<Vec<JsonPathSegment>, EmitError>)
    ensures
        match json_path(path@) {
            Some(steps) => r matches Ok(v) && steps_of(v@) == steps,
            None => r matches Err(EmitError::InvariantViolation(m)) && m@
                == "invalid SQLite JSON path"@,
        },
{
    let chars = text_chars(path);
    if chars.len() == 0 || chars[0] != '$' {
        return Err(invalid_path());
    }
    let ghost all = chars@;
    let n = chars.len();
    let mut output: Vec<JsonPathSegment> = Vec::new();
    let mut index: usize = 1;
    assert(all.skip(1) =~= all.drop_first());
    assert(steps_of(output@) =~= Seq::<JsonPathStep>::empty());
    assert(prefixed(seq![], path_steps(all.skip(1))) =~= path_steps(all.skip(1)));
    while index < n
        invariant
            all == chars@,
            all == path@,
            n == all.len(),
            all.len() > 0 && all[0] == '$',
            1 <= index <= n,
            path_steps(all.drop_first()) == prefixed(steps_of(output@), path_steps(all.skip(index as int))),
        decreases n - index,
    {
        let ghost s = all.skip(index as int);
        let ghost before = steps_of(output@);
        if chars[index] == '.' {
            let start = index + 1;
            let mut end = start;
            while end < n && chars[end] != '.' && chars[end] != '['
                invariant
                    all == chars@,
                    n == all.len(),
                    start <= end <= n,
                    forall|k: int| start <= k < end ==> !is_step_start(#[trigger] all[k]),
                decreases n - end,
            {
                end = end + 1;
            }
            proof {
                let t = s.drop_first();
                assert forall|k: int| 0 <= k < end - start implies !is_step_start(#[trigger] t[k]) by {
                    assert(t[k] == all[start + k]);
                }
                if end < n {
                    assert(t[end - start] == all[end as int]);
                }
                lemma_name_len_at(t, end - start);
            }
            if start == end {
                return Err(invalid_path());
            }
            let mut name = String::new();
            let mut k = start;
            assert(name@ =~= all.subrange(start as int, start as int));
            while k < end
                invariant
                    all == chars@,
                    start <= k <= end <= all.len(),
                    name@ =~= all.subrange(start as int, k as int),
                decreases end - k,
            {
                push_char(&mut name, chars[k]);
                assert(all.subrange(start as int, k + 1) =~= all.subrange(start as int, k as int).push(all[k as int]));
                k = k + 1;
            }
            proof {
                let m = (end - start) as int;
                assert(s.subrange(1, 1 + m) =~= all.subrange(start as int, end as int));
                assert(s.skip(1 + m) =~= all.skip(end as int));
            }
            output.push(JsonPathSegment::Property(name));
            proof {
                assert(steps_of(output@) =~= before.push(JsonPathStep::Property(all.subrange(start as int, end as int))));
            }
            index = end;
        } else if chars[index] == '[' {
            let start = index + 1;
            let mut end = start;
            while end < n && '0' <= chars[end] && chars[end] <= '9'
                invariant
                    all == chars@,
                    n == all.len(),
                    start <= end <= n,
                    forall|k: int| start <= k < end ==> is_digit_char(#[trigger] all[k]),
                decreases n - end,
            {
                end = end + 1;
            }
            proof {
                let t = s.drop_first();
                assert forall|k: int| 0 <= k < end - start implies is_digit_char(#[trigger] t[k]) by {
                    assert(t[k] == all[start + k]);
                }
                if end < n {
                    assert(t[end - start] == all[end as int]);
                }
                lemma_digit_len_at(t, end - start);
            }
            if start == end || end >= n || chars[end] != ']' {
                proof {
                    if end < n {
                        assert(s[1 + (end - start)] == all[end as int]);
                    }
                }
                return Err(invalid_path());
            }
            proof {
                let m = (end - start) as int;
                assert(s[1 + m] == all[end as int]);
                assert(s.skip(2 + m) =~= all.skip(end + 1));
            }
            output.push(JsonPathSegment::Index);
            proof {
                assert(steps_of(output@) =~= before.push(JsonPathStep::Index));
            }
            index = end + 1;
        } else {
            return Err(invalid_path());
        }
    }
    proof {
        assert(all.skip(index as int) =~= Seq::<char>::empty());
        assert(steps_of(output@) + seq![] =~= steps_of(output@));
    }
    Ok(output)
}


/// The schema filed under property `name`: the first entry with that name.
pub open spec fn property_of(properties: Seq<(String, JsonValueSchema)>, name: Seq<char>) -> Option<
    JsonValueSchema,
>
    decreases properties.len(),
{
    if properties.len() == 0 {
        None
    } else if properties[0].0@ == name {
        Some(properties[0].1)
    } else {
        property_of(properties.drop_first(), name)
    }
}

/// The schema that one step leads to from `schema`.
pub open spec fn step_target(schema: JsonValueSchema, step: JsonPathStep) -> Option<JsonValueSchema> {
    match step {
        JsonPathStep::Property(name) => property_of(schema.properties@, name),
        JsonPathStep::Index => match schema.items {
            Some(item) => Some(*item),
            None => None,
        },
    }
}

/// A schema and its `anyOf` alternatives, in order.
pub open spec fn branches(schema: JsonValueSchema) -> Seq<JsonValueSchema> {
    seq![schema] + schema.any_of@
}

/// The branches of each candidate, in order.
pub open spec fn all_branches(candidates: Seq<JsonValueSchema>) -> Seq<JsonValueSchema>
    decreases candidates.len(),
{
    if candidates.len() == 0 {
        seq![]
    } else {
        all_branches(candidates.drop_last()) + branches(candidates.last())
    }
}

/// The schemas that `step` leads to from each of `schemas`, in order.
pub open spec fn step_targets(schemas: Seq<JsonValueSchema>, step: JsonPathStep) -> Seq<
    JsonValueSchema,
>
    decreases schemas.len(),
{
    if schemas.len() == 0 {
        seq![]
    } else {
        step_targets(schemas.drop_last(), step) + match step_target(schemas.last(), step) {
            Some(t) => seq![t],
            None => seq![],
        }
    }
}

/// The candidates after walking `steps` from `candidates`, unless some step
/// leads nowhere.
pub open spec fn walk(candidates: Seq<JsonValueSchema>, steps: Seq<JsonPathStep>) -> Option<
    Seq<JsonValueSchema>,
>
    decreases steps.len(),
{
    if steps.len() == 0 {
        Some(candidates)
    } else {
        let next = step_targets(all_branches(candidates), steps[0]);
        if next.len() == 0 {
            None
        } else {
            walk(next, steps.drop_first())
        }
    }
}

pub open spec fn derefs(v: Seq<&JsonValueSchema>) -> Seq<JsonValueSchema> {
    v.map_values(|s: &JsonValueSchema| *s)
}

/// A schema and its `anyOf` alternatives.
pub fn schema_branches(schema: &JsonValueSchema) -> (r: Vec<&JsonValueSchema>)
    ensures
        derefs(r@) == branches(*schema),
{
    let mut out: Vec<&JsonValueSchema> = Vec::new();
    out.push(schema);
    let mut i: usize = 0;
    while i < schema.any_of.len()
        invariant
            i <= schema.any_of@.len(),
            derefs(out@) =~= seq![*schema] + schema.any_of@.take(i as int),
        decreases schema.any_of.len() - i,
    {
        let ghost before = derefs(out@);
        out.push(&schema.any_of[i]);
        proof {
            assert(derefs(out@) =~= before.push(schema.any_of@[i as int]));
            assert(schema.any_of@.take(i + 1) =~= schema.any_of@.take(i as int).push(schema.any_of@[i as int]));
        }
        i = i + 1;
    }
    assert(schema.any_of@.take(i as int) =~= schema.any_of@);
    out
}

/// The schema that one segment leads to from `schema`.
fn segment_target<'a>(schema: &'a JsonValueSchema, segment: &JsonPathSegment) -> (r: Option<
    &'a JsonValueSchema,
>)
    ensures
        match step_target(*schema, segment@) {
            Some(t) => r matches Some(x) && *x == t,
            None => r is None,
        },
{
    match segment {
        JsonPathSegment::Property(name) => {
            let ghost props = schema.properties@;
            let mut i: usize = 0;
            assert(props.skip(0) =~= props);
            while i < schema.properties.len()
                invariant
                    props == schema.properties@,
                    segment@ == JsonPathStep::Property(name@),
                    i <= props.len(),
                    property_of(props, name@) == property_of(props.skip(i as int), name@),
                decreases schema.properties.len() - i,
            {
                assert(props.skip(i as int).drop_first() =~= props.skip(i + 1));
                assert(props.skip(i as int)[0] == props[i as int]);
                if crate::text::text_eq(schema.properties[i].0.as_str(), name.as_str()) {
                    return Some(&schema.properties[i].1);
                }
                i = i + 1;
            }
            assert(props.skip(i as int) =~= Seq::<(String, JsonValueSchema)>::empty());
            None
        },
        JsonPathSegment::Index => match &schema.items {
            Some(item) => Some(&**item),
            None => None,
        },
    }
}

fn outside_schema() -> (r: EmitError)
    ensures
        r matches EmitError::InvariantViolation(m) && m@ == "JSON path is outside the Catalog Schema"@,
{
    EmitError::InvariantViolation(owned("JSON path is outside the Catalog Schema"))
}

/// The schemas that one step leads to from each branch of each candidate.
fn step_candidates<'a>(candidates: &Vec<&'a JsonValueSchema>, segment: &JsonPathSegment) -> (r: Vec<
    &'a JsonValueSchema,
>)
    ensures
        derefs(r@) == step_targets(all_branches(derefs(candidates@)), segment@),
{
    let ghost cands = derefs(candidates@);
    let mut next: Vec<&'a JsonValueSchema> = Vec::new();
    let mut i: usize = 0;
    assert(cands.take(0) =~= Seq::<JsonValueSchema>::empty());
    while i < candidates.len()
        invariant
            cands == derefs(candidates@),
            i <= cands.len(),
            derefs(next@) == step_targets(all_branches(cands.take(i as int)), segment@),
        decreases candidates.len() - i,
    {
        let bs = schema_branches(candidates[i]);
        let ghost done = all_branches(cands.take(i as int));
        assert(cands.take(i + 1).drop_last() =~= cands.take(i as int));
        assert(cands.take(i + 1).last() == *candidates@[i as int]);
        let mut j: usize = 0;
        assert(bs@.take(0) =~= Seq::<&JsonValueSchema>::empty());
        assert(done + derefs(bs@).take(0) =~= done);
        while j < bs.len()
            invariant
                j <= bs@.len(),
                derefs(next@) == step_targets(done + derefs(bs@).take(j as int), segment@),
            decreases bs.len() - j,
        {
            let ghost prior = done + derefs(bs@).take(j as int);
            assert((done + derefs(bs@).take(j + 1)).drop_last() =~= prior);
            assert((done + derefs(bs@).take(j + 1)).last() == *bs@[j as int]);
            match segment_target(bs[j], segment) {
                Some(t) => {
                    let ghost before = derefs(next@);
                    next.push(t);
                    assert(derefs(next@) =~= before.push(*t));
                },
                None => {},
            }
            j = j + 1;
        }
        assert(derefs(bs@).take(j as int) =~= derefs(bs@));
        i = i + 1;
    }
    assert(cands.take(i as int) =~= cands);
    next
}

/// The schemas of `schema` that the JSON path `path` reaches.
pub fn json_schema_candidates<'a>(schema: &'a JsonValueSchema, path: &str) -> (r: Result<
    Vec<&'a JsonValueSchema>,
    EmitError,
>)
    ensures
        match json_path(path@) {
            None => r matches Err(EmitError::InvariantViolation(m)) && m@
                == "invalid SQLite JSON path"@,
            Some(steps) => match walk(seq![*schema], steps) {
                Some(c) => r matches Ok(v) && derefs(v@) == c,
                None => r matches Err(EmitError::InvariantViolation(m)) && m@
                    == "JSON path is outside the Catalog Schema"@,
            },
        },
{
    let segments = match parse_json_path(path) {
        Ok(segments) => segments,
        Err(e) => return Err(e),
    };
    let ghost steps = steps_of(segments@);
    let mut candidates: Vec<&'a JsonValueSchema> = Vec::new();
    candidates.push(schema);
    assert(derefs(candidates@) =~= seq![*schema]);
    let mut k: usize = 0;
    assert(steps.skip(0) =~= steps);
    while k < segments.len()
        invariant
            steps == steps_of(segments@),
            json_path(path@) == Some(steps),
            k <= segments@.len(),
            derefs(candidates@).len() > 0,
            walk(seq![*schema], steps) == walk(derefs(candidates@), steps.skip(k as int)),
        decreases segments.len() - k,
    {
        let next = step_candidates(&candidates, &segments[k]);
        proof {
            assert(steps.skip(k as int)[0] == segments@[k as int]@);
            assert(steps.skip(k as int).drop_first() =~= steps.skip(k + 1));
        }
        if next.len() == 0 {
            proof {
                assert(walk(derefs(candidates@), steps.skip(k as int)) is None);
            }
            return Err(outside_schema());
        }
        candidates = next;
        k = k + 1;
    }
    proof {
        assert(steps.skip(k as int) =~= Seq::<JsonPathStep>::empty());
    }
    Ok(candidates)
}

/// A set of JSON Schema types.
#[derive(Clone, Copy, Debug, PartialEq, Eq, Structural)]
pub struct JsonTypeSet {
    null: bool,
    boolean: bool,
    integer: bool,
    number: bool,
    string: bool,
    array: bool,
    object: bool,
}

impl JsonTypeSet {
    pub closed spec fn has(&self, t: JsonSchemaType) -> bool {
        match t {
            JsonSchemaType::Null => self.null,
            JsonSchemaType::Boolean => self.boolean,
            JsonSchemaType::Integer => self.integer,
            JsonSchemaType::Number => self.number,
            JsonSchemaType::String => self.string,
            JsonSchemaType::Array => self.array,
            JsonSchemaType::Object => self.object,
        }
    }

    pub fn new() -> (r: Self)
        ensures
            forall|t: JsonSchemaType| !#[trigger] r.has(t),
    {
        JsonTypeSet {
            null: false,
            boolean: false,
            integer: false,
            number: false,
            string: false,
            array: false,
            object: false,
        }
    }

    pub fn insert(&mut self, t: JsonSchemaType)
        ensures
            forall|x: JsonSchemaType| #[trigger] final(self).has(x) == (old(self).has(x) || x == t),
    {
        match t {
            JsonSchemaType::Null => self.null = true,
            JsonSchemaType::Boolean => self.boolean = true,
            JsonSchemaType::Integer => self.integer = true,
            JsonSchemaType::Number => self.number = true,
            JsonSchemaType::String => self.string = true,
            JsonSchemaType::Array => self.array = true,
            JsonSchemaType::Object => self.object = true,
        }
    }

    pub fn contains(&self, t: JsonSchemaType) -> (r: bool)
        ensures
            r == self.has(t),
    {
        match t {
            JsonSchemaType::Null => self.null,
            JsonSchemaType::Boolean => self.boolean,
            JsonSchemaType::Integer => self.integer,
            JsonSchemaType::Number => self.number,
            JsonSchemaType::String => self.string,
            JsonSchemaType::Array => self.array,
            JsonSchemaType::Object => self.object,
        }
    }
}

/// Type `t` is declared by `schema` or one of its `anyOf` alternatives, or,
/// when `recursive`, anywhere beneath it.
pub open spec fn has_type(schema: JsonValueSchema, recursive: bool, t: JsonSchemaType) -> bool
    decreases schema,
{
    ||| schema.types@.contains(t)
    ||| list_has_type(schema.any_of@, recursive, t)
    ||| recursive && (props_have_type(schema.properties@, t) || match schema.items {
        Some(item) => has_type(*item, true, t),
        None => false,
    })
}

/// Some schema of `list` has type `t`.
pub open spec fn list_has_type(list: Seq<JsonValueSchema>, recursive: bool, t: JsonSchemaType) -> bool
    decreases list,
{
    list.len() > 0 && (list_has_type(list.drop_last(), recursive, t) || has_type(
        list.last(),
        recursive,
        t,
    ))
}

/// Some property schema of `properties` has type `t` anywhere beneath it.
pub open spec fn props_have_type(properties: Seq<(String, JsonValueSchema)>, t: JsonSchemaType) -> bool
    decreases properties,
{
    properties.len() > 0 && (props_have_type(properties.drop_last(), t) || has_type(
        properties.last().1,
        true,
        t,
    ))
}

/// Adds every type that `schema` declares, with those of its `anyOf`
/// alternatives and, when `recursive`, of everything beneath it.
pub fn collect_json_types(schema: &JsonValueSchema, recursive: bool, output: &mut JsonTypeSet)
    ensures
        forall|t: JsonSchemaType| #[trigger]
            final(output).has(t) == (old(output).has(t) || has_type(*schema, recursive, t)),
    decreases schema,
{
    let ghost start = *output;
    let mut i: usize = 0;
    while i < schema.types.len()
        invariant
            i <= schema.types@.len(),
            forall|t: JsonSchemaType| #[trigger]
                output.has(t) == (start.has(t) || schema.types@.take(i as int).contains(t)),
        decreases schema.types.len() - i,
    {
        let t = schema.types[i];
        output.insert(t);
        proof {
            assert(schema.types@.take(i + 1) =~= schema.types@.take(i as int).push(t));
            assert forall|x: JsonSchemaType| #[trigger] output.has(x) == (start.has(x)
                || schema.types@.take(i + 1).contains(x)) by {
                vstd::seq_lib::lemma_seq_contains_after_push(schema.types@.take(i as int), t, x);
            }
        }
        i = i + 1;
    }
    assert(schema.types@.take(i as int) =~= schema.types@);
    let ghost after_types = *output;
    let mut k: usize = 0;
    assert(schema.any_of@.take(0) =~= Seq::<JsonValueSchema>::empty());
    while k < schema.any_of.len()
        invariant
            k <= schema.any_of@.len(),
            forall|t: JsonSchemaType| #[trigger]
                output.has(t) == (after_types.has(t) || list_has_type(
                    schema.any_of@.take(k as int),
                    recursive,
                    t,
                )),
        decreases schema.any_of.len() - k,
    {
        proof {
            assert(decreases_to!(schema => schema.any_of@[k as int]));
        }
        collect_json_types(&schema.any_of[k], recursive, output);
        proof {
            assert(schema.any_of@.take(k + 1).drop_last() =~= schema.any_of@.take(k as int));
        }
        k = k + 1;
    }
    assert(schema.any_of@.take(k as int) =~= schema.any_of@);
    if recursive {
        let ghost after_branches = *output;
        let mut p: usize = 0;
        assert(schema.properties@.take(0) =~= Seq::<(String, JsonValueSchema)>::empty());
        while p < schema.properties.len()
            invariant
                p <= schema.properties@.len(),
                forall|t: JsonSchemaType| #[trigger]
                    output.has(t) == (after_branches.has(t) || props_have_type(
                        schema.properties@.take(p as int),
                        t,
                    )),
            decreases schema.properties.len() - p,
        {
            proof {
                assert(decreases_to!(schema => schema.properties@[p as int].1));
            }
            collect_json_types(&schema.properties[p].1, true, output);
            proof {
                assert(schema.properties@.take(p + 1).drop_last() =~= schema.properties@.take(
                    p as int,
                ));
            }
            p = p + 1;
        }
        assert(schema.properties@.take(p as int) =~= schema.properties@);
        match &schema.items {
            Some(item) => {
                collect_json_types(&**item, true, output);
            },
            None => {},
        }
    }
}

/// `schema` and everything beneath it, in pre-order: the schema, its
/// properties' subtrees, its item subtree, then its alternatives' subtrees.
pub open spec fn all_schemas(schema: JsonValueSchema) -> Seq<JsonValueSchema>
    decreases schema,
{
    seq![schema] + props_schemas(schema.properties@) + match schema.items {
        Some(item) => all_schemas(*item),
        None => seq![],
    } + list_schemas(schema.any_of@)
}

pub open spec fn props_schemas(properties: Seq<(String, JsonValueSchema)>) -> Seq<JsonValueSchema>
    decreases properties,
{
    if properties.len() == 0 {
        seq![]
    } else {
        props_schemas(properties.drop_last()) + all_schemas(properties.last().1)
    }
}

pub open spec fn list_schemas(list: Seq<JsonValueSchema>) -> Seq<JsonValueSchema>
    decreases list,
{
    if list.len() == 0 {
        seq![]
    } else {
        list_schemas(list.drop_last()) + all_schemas(list.last())
    }
}

/// Appends `schema` and everything beneath it, in pre-order.
pub fn collect_json_schemas<'a>(schema: &'a JsonValueSchema, output: &mut Vec<&'a JsonValueSchema>)
    ensures
        derefs(final(output)@) == derefs(old(output)@) + all_schemas(*schema),
    decreases schema,
{
    let ghost start = derefs(output@);
    output.push(schema);
    assert(derefs(output@) =~= start + seq![*schema]);
    let mut p: usize = 0;
    assert(schema.properties@.take(0) =~= Seq::<(String, JsonValueSchema)>::empty());
    while p < schema.properties.len()
        invariant
            p <= schema.properties@.len(),
            derefs(output@) =~= start + seq![*schema] + props_schemas(schema.properties@.take(p as int)),
        decreases schema.properties.len() - p,
    {
        proof {
            assert(decreases_to!(schema => schema.properties@[p as int].1));
        }
        collect_json_schemas(&schema.properties[p].1, output);
        proof {
            assert(schema.properties@.take(p + 1).drop_last() =~= schema.properties@.take(p as int));
        }
        p = p + 1;
    }
    assert(schema.properties@.take(p as int) =~= schema.properties@);
    match &schema.items {
        Some(item) => {
            collect_json_schemas(&**item, output);
        },
        None => {},
    }
    let ghost after_items = derefs(output@);
    let mut k: usize = 0;
    assert(schema.any_of@.take(0) =~= Seq::<JsonValueSchema>::empty());
    while k < schema.any_of.len()
        invariant
            k <= schema.any_of@.len(),
            derefs(output@) =~= after_items + list_schemas(schema.any_of@.take(k as int)),
        decreases schema.any_of.len() - k,
    {
        proof {
            assert(decreases_to!(schema => schema.any_of@[k as int]));
        }
        collect_json_schemas(&schema.any_of[k], output);
        proof {
            assert(schema.any_of@.take(k + 1).drop_last() =~= schema.any_of@.take(k as int));
        }
        k = k + 1;
    }
    assert(schema.any_of@.take(k as int) =~= schema.any_of@);
}

} // verus!
