//! Multi-status responses.
use vstd::prelude::*;

use crate::element::{element_key, map_of, opt_seq_view, optional_child, parse_all, required_child, seq_view, siblings, Element, lemma_seq_view};
use crate::elements::href::{Href, HrefV};
use crate::elements::prop::Prop;
use crate::elements::status::{Status, StatusV};
use crate::elements::wrapped::ResponseDescription;
use crate::error::{missing_element, Error, ErrorV};
use crate::name::{dav_key, dav_name, NameKey};
use crate::value::{lemma_values_view, values_view, MapV, NonEmptyVec, Value, ValueMap, ValueV};

verus! {

/// The `propstat` element: properties and their status.
#[derive(Debug, PartialEq)]
pub struct Propstat {
    pub prop: Prop,
    pub status: Status,
    pub responsedescription: Option<ResponseDescription>,
}

pub struct PropstatV {
    pub prop: MapV,
    pub status: StatusV,
    pub responsedescription: Option<Seq<char>>,
}

impl View for Propstat {
    type V = PropstatV;

    open spec fn view(&self) -> PropstatV {
        PropstatV {
            prop: self.prop@,
            status: self.status@,
            responsedescription: opt_seq_view(self.responsedescription),
        }
    }
}

pub open spec fn with_description(m: MapV, d: Option<Seq<char>>) -> MapV {
    match d {
        Some(t) => m.insert(dav_name("responsedescription"@), ValueV::Text(t)),
        None => m,
    }
}

impl Element for Propstat {
    open spec fn spec_local_name() -> Seq<char> {
        "propstat"@
    }

    fn local_name() -> (r: &'static str) {
        "propstat"
    }

    open spec fn spec_from_value(v: ValueV) -> Result<PropstatV, ErrorV> {
        match map_of("propstat"@, v) {
            Err(e) => Err(e),
            Ok(m) => match required_child::<Prop>(m, "propstat"@) {
                Err(e) => Err(e),
                Ok(prop) => match required_child::<Status>(m, "propstat"@) {
                    Err(e) => Err(e),
                    Ok(status) => match optional_child::<ResponseDescription>(m) {
                        Err(e) => Err(e),
                        Ok(responsedescription) => Ok(PropstatV { prop, status, responsedescription }),
                    },
                },
            },
        }
    }

    fn from_value(v: &Value) -> (r: Result<Propstat, Error>) {
        let m = match v.as_map_of_name("propstat") {
            Ok(m) => m,
            Err(e) => return Err(e),
        };
        let prop = match m.get_required_in::<Prop>("propstat") {
            Ok(x) => x,
            Err(e) => return Err(e),
        };
        let status = match m.get_required_in::<Status>("propstat") {
            Ok(x) => x,
            Err(e) => return Err(e),
        };
        let responsedescription = match m.get_optional_child::<ResponseDescription>() {
            Ok(x) => x,
            Err(e) => return Err(e),
        };
        Ok(Propstat { prop, status, responsedescription })
    }

    open spec fn spec_into_value(x: PropstatV) -> ValueV {
        ValueV::Elements(
            with_description(
                MapV::empty().insert(dav_name("prop"@), ValueV::Elements(x.prop)).insert(
                    dav_name("status"@),
                    Status::spec_into_value(x.status),
                ),
                x.responsedescription,
            ),
        )
    }

    fn into_value(self) -> (r: Value) {
        let mut map = ValueMap::new();
        map.insert::<Prop>(self.prop.into_value());
        map.insert::<Status>(self.status.into_value());
        match self.responsedescription {
            Some(d) => map.insert::<ResponseDescription>(d.into_value()),
            None => {},
        }
        Value::Elements(map)
    }
}

/// The `response` element: the properties of one resource, or the status
/// of one or more.
#[derive(Debug, PartialEq)]
pub enum Response {
    /// Properties of `href`, by status; `propstat` is never empty.
    Propstat { href: Href, propstat: NonEmptyVec<Propstat>, responsedescription: Option<ResponseDescription> },
    /// One status for the resources `href`, which is never empty.
    Status { href: NonEmptyVec<Href>, status: Status, responsedescription: Option<ResponseDescription> },
}

pub enum ResponseV {
    Propstat { href: HrefV, propstat: Seq<PropstatV>, responsedescription: Option<Seq<char>> },
    Status { href: Seq<HrefV>, status: StatusV, responsedescription: Option<Seq<char>> },
}

impl View for Response {
    type V = ResponseV;

    open spec fn view(&self) -> ResponseV {
        match self {
            Response::Propstat { href, propstat, responsedescription } => ResponseV::Propstat {
                href: href@,
                propstat: seq_view(propstat@),
                responsedescription: opt_seq_view(*responsedescription),
            },
            Response::Status { href, status, responsedescription } => ResponseV::Status {
                href: seq_view(href@),
                status: status@,
                responsedescription: opt_seq_view(*responsedescription),
            },
        }
    }
}

pub open spec fn response_from(v: ValueV) -> Result<ResponseV, ErrorV> {
    match map_of("response"@, v) {
        Err(e) => Err(e),
        Ok(m) => match parse_all::<Propstat>(siblings(m.get(element_key::<Propstat>()))) {
            Err(e) => Err(e),
            Ok(ps) => if ps.len() > 0 {
                match required_child::<Href>(m, "response"@) {
                    Err(e) => Err(e),
                    Ok(href) => match optional_child::<ResponseDescription>(m) {
                        Err(e) => Err(e),
                        Ok(d) => Ok(ResponseV::Propstat { href, propstat: ps, responsedescription: d }),
                    },
                }
            } else {
                match parse_all::<Href>(siblings(m.get(element_key::<Href>()))) {
                    Err(e) => Err(e),
                    Ok(hs) => if hs.len() == 0 {
                        Err(ErrorV::MissingElement { parent: "response"@, element: "href"@ })
                    } else {
                        match required_child::<Status>(m, "response"@) {
                            Err(e) => Err(e),
                            Ok(status) => match optional_child::<ResponseDescription>(m) {
                                Err(e) => Err(e),
                                Ok(d) => Ok(ResponseV::Status { href: hs, status, responsedescription: d }),
                            },
                        }
                    },
                }
            },
        },
    }
}

pub open spec fn response_value(x: ResponseV) -> ValueV {
    match x {
        ResponseV::Propstat { href, propstat, responsedescription } => ValueV::Elements(
            with_description(
                MapV::empty().insert(dav_name("href"@), Href::spec_into_value(href)).insert(
                    dav_name("propstat"@),
                    ValueV::List(propstat.map_values(|p: PropstatV| Propstat::spec_into_value(p))),
                ),
                responsedescription,
            ),
        ),
        ResponseV::Status { href, status, responsedescription } => ValueV::Elements(
            with_description(
                MapV::empty().insert(
                    dav_name("href"@),
                    ValueV::List(href.map_values(|h: HrefV| Href::spec_into_value(h))),
                ).insert(dav_name("status"@), Status::spec_into_value(status)),
                responsedescription,
            ),
        ),
    }
}

/// The values of elements, in order.
pub fn into_values<E: Element>(items: Vec<E>) -> (r: Vec<Value>)
    ensures
        values_view(r@) == seq_view(items@).map_values(|x: E::V| E::spec_into_value(x)),
{
    let ghost xs = items@;
    let ghost n = xs.len();
    let mut values: Vec<Value> = Vec::new();
    let mut rest = items;
    assert(rest@ =~= xs.subrange(0, n as int));
    proof {
        lemma_values_view(values@);
    }
    assert(values_view(values@) =~= seq_view(xs.subrange(0, 0)).map_values(|x: E::V| E::spec_into_value(x)));
    while rest.len() > 0
        invariant
            n == xs.len(),
            values@.len() <= n,
            rest@ == xs.subrange(values@.len() as int, n as int),
            values_view(values@) == seq_view(xs.subrange(0, values@.len() as int)).map_values(|x: E::V| E::spec_into_value(x)),
        decreases rest.len(),
    {
        let ghost k: int = values@.len() as int;
        let ghost before = values@;
        let item = rest.remove(0);
        values.push(item.into_value());
        proof {
            assert(values@.drop_last() =~= before);
            lemma_values_view(values@);
            lemma_values_view(before);
            assert(values_view(values@) =~= seq_view(xs.subrange(0, k + 1)).map_values(|x: E::V| E::spec_into_value(x)));
            assert(rest@ =~= xs.subrange(k + 1, n as int));
        }
    }
    assert(xs.subrange(0, n as int) =~= xs);
    values
}

impl Element for Response {
    open spec fn spec_local_name() -> Seq<char> {
        "response"@
    }

    fn local_name() -> (r: &'static str) {
        "response"
    }

    open spec fn spec_from_value(v: ValueV) -> Result<ResponseV, ErrorV> {
        response_from(v)
    }

    fn from_value(v: &Value) -> (r: Result<Response, Error>) {
        let m = match v.as_map_of_name("response") {
            Ok(m) => m,
            Err(e) => return Err(e),
        };
        let propstat = match m.get_all::<Propstat>() {
            Ok(x) => x,
            Err(e) => return Err(e),
        };
        proof {
            lemma_seq_view(propstat@);
        }
        if propstat.len() > 0 {
            let href = match m.get_required_in::<Href>("response") {
                Ok(x) => x,
                Err(e) => return Err(e),
            };
            let responsedescription = match m.get_optional_child::<ResponseDescription>() {
                Ok(x) => x,
                Err(e) => return Err(e),
            };
            Ok(Response::Propstat { href, propstat: NonEmptyVec::from_vec(propstat), responsedescription })
        } else {
            let href = match m.get_all::<Href>() {
                Ok(x) => x,
                Err(e) => return Err(e),
            };
            proof {
                lemma_seq_view(href@);
            }
            if href.len() == 0 {
                return Err(missing_element("response", "href"));
            }
            let status = match m.get_required_in::<Status>("response") {
                Ok(x) => x,
                Err(e) => return Err(e),
            };
            let responsedescription = match m.get_optional_child::<ResponseDescription>() {
                Ok(x) => x,
                Err(e) => return Err(e),
            };
            Ok(Response::Status { href: NonEmptyVec::from_vec(href), status, responsedescription })
        }
    }

    open spec fn spec_into_value(x: ResponseV) -> ValueV {
        response_value(x)
    }

    fn into_value(self) -> (r: Value) {
        let mut map = ValueMap::new();
        match self {
            Response::Propstat { href, propstat, responsedescription } => {
                map.insert::<Href>(href.into_value());
                let values = into_values(propstat.into_vec());
                proof {
                    lemma_values_view(values@);
                }
                map.insert::<Propstat>(Value::List(NonEmptyVec::from_vec(values)));
                match responsedescription {
                    Some(d) => map.insert::<ResponseDescription>(d.into_value()),
                    None => {},
                }
            },
            Response::Status { href, status, responsedescription } => {
                let values = into_values(href.into_vec());
                proof {
                    lemma_values_view(values@);
                }
                map.insert::<Href>(Value::List(NonEmptyVec::from_vec(values)));
                map.insert::<Status>(status.into_value());
                match responsedescription {
                    Some(d) => map.insert::<ResponseDescription>(d.into_value()),
                    None => {},
                }
            },
        }
        Value::Elements(map)
    }
}

/// The `multistatus` element: the responses to a request on several
/// resources.
#[derive(Debug, PartialEq)]
pub struct Multistatus {
    pub response: Vec<Response>,
    pub responsedescription: Option<ResponseDescription>,
}

pub struct MultistatusV {
    pub response: Seq<ResponseV>,
    pub responsedescription: Option<Seq<char>>,
}

impl View for Multistatus {
    type V = MultistatusV;

    open spec fn view(&self) -> MultistatusV {
        MultistatusV { response: seq_view(self.response@), responsedescription: opt_seq_view(self.responsedescription) }
    }
}

impl Element for Multistatus {
    open spec fn spec_local_name() -> Seq<char> {
        "multistatus"@
    }

    fn local_name() -> (r: &'static str) {
        "multistatus"
    }

    open spec fn spec_from_value(v: ValueV) -> Result<MultistatusV, ErrorV> {
        match v {
            ValueV::Empty => Ok(MultistatusV { response: Seq::empty(), responsedescription: None }),
            _ => match map_of("multistatus"@, v) {
                Err(e) => Err(e),
                Ok(m) => match parse_all::<Response>(siblings(m.get(element_key::<Response>()))) {
                    Err(e) => Err(e),
                    Ok(rs) => match optional_child::<ResponseDescription>(m) {
                        Err(e) => Err(e),
                        Ok(d) => Ok(MultistatusV { response: rs, responsedescription: d }),
                    },
                },
            },
        }
    }

    fn from_value(v: &Value) -> (r: Result<Multistatus, Error>) {
        if v.is_empty() {
            let response: Vec<Response> = Vec::new();
            assert(seq_view(response@) =~= Seq::<ResponseV>::empty());
            return Ok(Multistatus { response, responsedescription: None });
        }
        let m = match v.as_map_of_name("multistatus") {
            Ok(m) => m,
            Err(e) => return Err(e),
        };
        let response = match m.get_all::<Response>() {
            Ok(x) => x,
            Err(e) => return Err(e),
        };
        let responsedescription = match m.get_optional_child::<ResponseDescription>() {
            Ok(x) => x,
            Err(e) => return Err(e),
        };
        Ok(Multistatus { response, responsedescription })
    }

    /// The responses as a list, or nothing where there are none.
    open spec fn spec_into_value(x: MultistatusV) -> ValueV {
        ValueV::Elements(
            with_description(
                MapV::empty().insert(
                    dav_name("response"@),
                    if x.response.len() > 0 {
                        ValueV::List(x.response.map_values(|r: ResponseV| Response::spec_into_value(r)))
                    } else {
                        ValueV::Empty
                    },
                ),
                x.responsedescription,
            ),
        )
    }

    fn into_value(self) -> (r: Value) {
        let mut map = ValueMap::new();
        let n = self.response.len();
        proof {
            lemma_seq_view(self.response@);
        }
        let values = into_values(self.response);
        proof {
            lemma_values_view(values@);
        }
        if n > 0 {
            map.insert::<Response>(Value::List(NonEmptyVec::from_vec(values)));
        } else {
            map.insert::<Response>(Value::Empty);
        }
        match self.responsedescription {
            Some(d) => map.insert::<ResponseDescription>(d.into_value()),
            None => {},
        }
        Value::Elements(map)
    }
}

pub open spec fn status_success(s: StatusV) -> bool {
    200 <= s.code < 300
}

/// The propstats whose status is not a success, each with the response's
/// `href`.
pub open spec fn propstat_failures(href: HrefV, ps: Seq<PropstatV>) -> Seq<(HrefV, StatusV)>
    decreases ps.len(),
{
    if ps.len() == 0 {
        Seq::empty()
    } else {
        propstat_failures(href, ps.drop_last()) + if !status_success(ps.last().status) {
            seq![(href, ps.last().status)]
        } else {
            Seq::empty()
        }
    }
}

/// Each `href` with the status.
pub open spec fn href_failures(hs: Seq<HrefV>, status: StatusV) -> Seq<(HrefV, StatusV)>
    decreases hs.len(),
{
    if hs.len() == 0 {
        Seq::empty()
    } else {
        href_failures(hs.drop_last(), status).push((hs.last(), status))
    }
}

/// The failures of one response: each `href` with a status outside 2xx.
pub open spec fn response_failures(r: ResponseV) -> Seq<(HrefV, StatusV)> {
    match r {
        ResponseV::Propstat { href, propstat, .. } => propstat_failures(href, propstat),
        ResponseV::Status { href, status, .. } => if !status_success(status) {
            href_failures(href, status)
        } else {
            Seq::empty()
        },
    }
}

/// The failures of all responses, in order.
pub open spec fn failures_of(rs: Seq<ResponseV>) -> Seq<(HrefV, StatusV)>
    decreases rs.len(),
{
    if rs.len() == 0 {
        Seq::empty()
    } else {
        failures_of(rs.drop_last()) + response_failures(rs.last())
    }
}

/// The propstat failures of a response are exactly its propstats whose
/// status code is outside `200..300`, each paired with the response's
/// `href`.
pub proof fn lemma_propstat_failures(href: HrefV, ps: Seq<PropstatV>)
    ensures
        forall|k: int|
            0 <= k < ps.len() && !(200 <= ps[k].status.code < 300) ==> propstat_failures(href, ps).contains(
                (href, #[trigger] ps[k].status),
            ),
        forall|j: int|
            0 <= j < propstat_failures(href, ps).len() ==> {
                let f = #[trigger] propstat_failures(href, ps)[j];
                &&& f.0 == href
                &&& !(200 <= f.1.code < 300)
                &&& exists|k: int| 0 <= k < ps.len() && f.1 == #[trigger] ps[k].status
            },
    decreases ps.len(),
{
    if ps.len() > 0 {
        let front = ps.drop_last();
        lemma_propstat_failures(href, front);
        let pf = propstat_failures(href, front);
        let tail = if !status_success(ps.last().status) {
            seq![(href, ps.last().status)]
        } else {
            Seq::<(HrefV, StatusV)>::empty()
        };
        assert(propstat_failures(href, ps) == pf + tail);
        assert forall|k: int| 0 <= k < ps.len() && !(200 <= ps[k].status.code < 300) implies propstat_failures(
            href,
            ps,
        ).contains((href, #[trigger] ps[k].status)) by {
            if k < ps.len() - 1 {
                assert(front[k] == ps[k]);
                let j = choose|j: int| 0 <= j < pf.len() && pf[j] == (href, front[k].status);
                assert((pf + tail)[j] == pf[j]);
            } else {
                assert((pf + tail)[pf.len() as int] == (href, ps[k].status));
            }
        }
        assert forall|j: int| 0 <= j < propstat_failures(href, ps).len() implies {
            let f = #[trigger] propstat_failures(href, ps)[j];
            &&& f.0 == href
            &&& !(200 <= f.1.code < 300)
            &&& exists|k: int| 0 <= k < ps.len() && f.1 == #[trigger] ps[k].status
        } by {
            if j < pf.len() {
                assert((pf + tail)[j] == pf[j]);
                let f = pf[j];
                let k = choose|k: int| 0 <= k < front.len() && f.1 == #[trigger] front[k].status;
                assert(ps[k] == front[k]);
            } else {
                assert((pf + tail)[j] == tail[j - pf.len()]);
                assert(ps[ps.len() - 1] == ps.last());
            }
        }
    }
}

/// Each `href` of a status response appears with the status, and nothing
/// else does.
pub proof fn lemma_href_failures(hs: Seq<HrefV>, status: StatusV)
    ensures
        forall|k: int| 0 <= k < hs.len() ==> href_failures(hs, status).contains((#[trigger] hs[k], status)),
        forall|j: int|
            0 <= j < href_failures(hs, status).len() ==> (#[trigger] href_failures(hs, status)[j]).1 == status,
    decreases hs.len(),
{
    if hs.len() > 0 {
        let front = hs.drop_last();
        lemma_href_failures(front, status);
        let hf = href_failures(front, status);
        assert(href_failures(hs, status) == hf.push((hs.last(), status)));
        assert forall|k: int| 0 <= k < hs.len() implies href_failures(hs, status).contains(
            (#[trigger] hs[k], status),
        ) by {
            if k < hs.len() - 1 {
                assert(front[k] == hs[k]);
                let j = choose|j: int| 0 <= j < hf.len() && hf[j] == (front[k], status);
                assert(hf.push((hs.last(), status))[j] == hf[j]);
            } else {
                assert(hf.push((hs.last(), status))[hf.len() as int] == (hs[k], status));
            }
        }
        assert forall|j: int| 0 <= j < href_failures(hs, status).len() implies (#[trigger] href_failures(
            hs,
            status,
        )[j]).1 == status by {
            if j < hf.len() {
                assert(hf.push((hs.last(), status))[j] == hf[j]);
            }
        }
    }
}

/// The failures of a multi-status answer: every propstat whose status code
/// is outside `200..300` is listed with its response's `href`, every `href`
/// of a status response whose code is outside `200..300` is listed with
/// that status, and every listed status is outside `200..300`.
pub proof fn lemma_failures_of(rs: Seq<ResponseV>)
    ensures
        forall|i: int, k: int|
            0 <= i < rs.len() && (#[trigger] rs[i]) is Propstat && 0 <= k < rs[i]->Propstat_propstat.len()
                && !(200 <= rs[i]->Propstat_propstat[k].status.code < 300) ==> failures_of(rs).contains(
                (rs[i]->Propstat_href, #[trigger] rs[i]->Propstat_propstat[k].status),
            ),
        forall|i: int, k: int|
            0 <= i < rs.len() && (#[trigger] rs[i]) is Status && 0 <= k < rs[i]->Status_href.len()
                && !(200 <= rs[i]->Status_status.code < 300) ==> failures_of(rs).contains(
                (#[trigger] rs[i]->Status_href[k], rs[i]->Status_status),
            ),
        forall|j: int| 0 <= j < failures_of(rs).len() ==> !(200 <= (#[trigger] failures_of(rs)[j]).1.code < 300),
    decreases rs.len(),
{
    if rs.len() > 0 {
        let front = rs.drop_last();
        lemma_failures_of(front);
        let ff = failures_of(front);
        let last = rs.last();
        let lf = response_failures(last);
        assert(failures_of(rs) == ff + lf);
        match last {
            ResponseV::Propstat { href, propstat, .. } => lemma_propstat_failures(href, propstat),
            ResponseV::Status { href, status, .. } => lemma_href_failures(href, status),
        }
        assert forall|i: int, k: int|
            0 <= i < rs.len() && (#[trigger] rs[i]) is Propstat && 0 <= k < rs[i]->Propstat_propstat.len()
                && !(200 <= rs[i]->Propstat_propstat[k].status.code < 300) implies failures_of(rs).contains(
            (rs[i]->Propstat_href, #[trigger] rs[i]->Propstat_propstat[k].status),
        ) by {
            let pair = (rs[i]->Propstat_href, rs[i]->Propstat_propstat[k].status);
            if i < rs.len() - 1 {
                assert(front[i] == rs[i]);
                assert(ff.contains(pair));
                let j = choose|j: int| 0 <= j < ff.len() && ff[j] == pair;
                assert((ff + lf)[j] == ff[j]);
            } else {
                assert(rs[i] == last);
                assert(lf.contains(pair));
                let j = choose|j: int| 0 <= j < lf.len() && lf[j] == pair;
                assert((ff + lf)[ff.len() + j] == lf[j]);
            }
        }
        assert forall|i: int, k: int|
            0 <= i < rs.len() && (#[trigger] rs[i]) is Status && 0 <= k < rs[i]->Status_href.len()
                && !(200 <= rs[i]->Status_status.code < 300) implies failures_of(rs).contains(
            (#[trigger] rs[i]->Status_href[k], rs[i]->Status_status),
        ) by {
            let pair = (rs[i]->Status_href[k], rs[i]->Status_status);
            if i < rs.len() - 1 {
                assert(front[i] == rs[i]);
                assert(ff.contains(pair));
                let j = choose|j: int| 0 <= j < ff.len() && ff[j] == pair;
                assert((ff + lf)[j] == ff[j]);
            } else {
                assert(rs[i] == last);
                assert(lf.contains(pair));
                let j = choose|j: int| 0 <= j < lf.len() && lf[j] == pair;
                assert((ff + lf)[ff.len() + j] == lf[j]);
            }
        }
        assert forall|j: int| 0 <= j < failures_of(rs).len() implies !(200 <= (#[trigger] failures_of(
            rs,
        )[j]).1.code < 300) by {
            if j < ff.len() {
                assert((ff + lf)[j] == ff[j]);
            } else {
                assert((ff + lf)[j] == lf[j - ff.len()]);
            }
        }
    }
}

pub open spec fn pairs_view(s: Seq<(&Href, &Status)>) -> Seq<(HrefV, StatusV)>
    decreases s.len(),
{
    if s.len() == 0 {
        Seq::empty()
    } else {
        pairs_view(s.drop_last()).push((s.last().0@, s.last().1@))
    }
}

pub proof fn lemma_pairs_view_len(s: Seq<(&Href, &Status)>)
    ensures
        pairs_view(s).len() == s.len(),
    decreases s.len(),
{
    if s.len() > 0 {
        lemma_pairs_view_len(s.drop_last());
    }
}

pub proof fn lemma_pairs_view_push(s: Seq<(&Href, &Status)>, x: (&Href, &Status))
    ensures
        pairs_view(s.push(x)) == pairs_view(s).push((x.0@, x.1@)),
{
    assert(s.push(x).drop_last() =~= s);
}

impl Multistatus {
    /// Every resource whose status is not a success, with that status.
    pub fn failures(&self) -> (r: Vec<(&Href, &Status)>)
        ensures
            pairs_view(r@) == failures_of(self@.response),
    {
        let ghost rs = self@.response;
        proof {
            lemma_seq_view(self.response@);
        }
        let mut out: Vec<(&Href, &Status)> = Vec::new();
        let mut i: usize = 0;
        assert(rs.subrange(0, 0) =~= Seq::<ResponseV>::empty());
        while i < self.response.len()
            invariant
                i <= self.response.len(),
                rs == self@.response,
                rs.len() == self.response@.len(),
                forall|j: int| 0 <= j < rs.len() ==> #[trigger] rs[j] == self.response@[j]@,
                pairs_view(out@) == failures_of(rs.subrange(0, i as int)),
            decreases self.response.len() - i,
        {
            let ghost before = pairs_view(out@);
            assert(rs.subrange(0, i + 1).drop_last() =~= rs.subrange(0, i as int));
            match &self.response[i] {
                Response::Propstat { href, propstat, .. } => {
                    let propstat = propstat.as_vec();
                    proof {
                        lemma_seq_view(propstat@);
                    }
                    let ghost ps = seq_view(propstat@);
                    let mut k: usize = 0;
                    assert(ps.subrange(0, 0) =~= Seq::<PropstatV>::empty());
                    assert(before + Seq::<(HrefV, StatusV)>::empty() =~= before);
                    while k < propstat.len()
                        invariant
                            k <= propstat.len(),
                            ps == seq_view(propstat@),
                            ps.len() == propstat@.len(),
                            forall|j: int| 0 <= j < ps.len() ==> #[trigger] ps[j] == propstat@[j]@,
                            pairs_view(out@) == before + propstat_failures(href@, ps.subrange(0, k as int)),
                        decreases propstat.len() - k,
                    {
                        assert(ps.subrange(0, k + 1).drop_last() =~= ps.subrange(0, k as int));
                        if !propstat[k].status.is_success() {
                            let ghost prev = out@;
                            out.push((href, &propstat[k].status));
                            proof {
                                lemma_pairs_view_push(prev, (href, &propstat[k as int].status));
                            }
                            assert(pairs_view(out@) =~= before + propstat_failures(href@, ps.subrange(0, k + 1)));
                        } else {
                            assert(pairs_view(out@) =~= before + propstat_failures(href@, ps.subrange(0, k + 1)));
                        }
                        k = k + 1;
                    }
                    assert(ps.subrange(0, ps.len() as int) =~= ps);
                },
                Response::Status { href, status, .. } => {
                    let href = href.as_vec();
                    if !status.is_success() {
                        proof {
                            lemma_seq_view(href@);
                        }
                        let ghost hs = seq_view(href@);
                        let mut k: usize = 0;
                        assert(hs.subrange(0, 0) =~= Seq::<HrefV>::empty());
                        assert(before + Seq::<(HrefV, StatusV)>::empty() =~= before);
                        while k < href.len()
                            invariant
                                k <= href.len(),
                                hs == seq_view(href@),
                                hs.len() == href@.len(),
                                forall|j: int| 0 <= j < hs.len() ==> #[trigger] hs[j] == href@[j]@,
                                pairs_view(out@) == before + href_failures(hs.subrange(0, k as int), status@),
                            decreases href.len() - k,
                        {
                            assert(hs.subrange(0, k + 1).drop_last() =~= hs.subrange(0, k as int));
                            let ghost prev = out@;
                            out.push((&href[k], status));
                            proof {
                                lemma_pairs_view_push(prev, (&href[k as int], status));
                            }
                            assert(pairs_view(out@) =~= before + href_failures(hs.subrange(0, k + 1), status@));
                            k = k + 1;
                        }
                        assert(hs.subrange(0, hs.len() as int) =~= hs);
                    } else {
                        assert(before + Seq::<(HrefV, StatusV)>::empty() =~= before);
                    }
                },
            }
            i = i + 1;
        }
        assert(rs.subrange(0, rs.len() as int) =~= rs);
        out
    }
}

impl crate::element::Duplicate for Propstat {
    fn duplicate(&self) -> (r: Propstat) {
        Propstat {
            prop: self.prop.copy(),
            status: self.status.copy(),
            responsedescription: match &self.responsedescription {
                Some(d) => Some(d.copy()),
                None => None,
            },
        }
    }
}

impl Propstat {
    /// A copy.
    pub fn copy(&self) -> (r: Propstat)
        ensures
            r@ == self@,
    {
        crate::element::Duplicate::duplicate(self)
    }
}

impl crate::element::Duplicate for Response {
    fn duplicate(&self) -> (r: Response) {
        match self {
            Response::Propstat { href, propstat, responsedescription } => Response::Propstat {
                href: href.copy(),
                propstat: crate::element::duplicate_non_empty(propstat),
                responsedescription: match responsedescription {
                    Some(d) => Some(d.copy()),
                    None => None,
                },
            },
            Response::Status { href, status, responsedescription } => Response::Status {
                href: crate::element::duplicate_non_empty(href),
                status: status.copy(),
                responsedescription: match responsedescription {
                    Some(d) => Some(d.copy()),
                    None => None,
                },
            },
        }
    }
}

impl Response {
    /// A copy.
    pub fn copy(&self) -> (r: Response)
        ensures
            r@ == self@,
    {
        crate::element::Duplicate::duplicate(self)
    }
}

impl Multistatus {
    /// A copy.
    pub fn copy(&self) -> (r: Multistatus)
        ensures
            r@ == self@,
    {
        Multistatus {
            response: crate::element::duplicate_all(&self.response),
            responsedescription: match &self.responsedescription {
                Some(d) => Some(d.copy()),
                None => None,
            },
        }
    }
}

/// Whether a status line reads back from the text it is written as: its
/// code is from 100 to 999, and its reason, if any, is not empty and has
/// no whitespace at either end.
pub open spec fn status_reads_back(s: StatusV) -> bool {
    &&& 100 <= s.code <= 999
    &&& s.reason matches Some(r) ==> r.len() > 0 && !crate::text::is_ws(r[0]) && !crate::text::is_ws(r.last())
}

/// Whether an `href` reads back from the value it is written as.
pub open spec fn href_reads_back(h: HrefV) -> bool {
    Href::spec_from_value(Href::spec_into_value(h)) == Ok::<HrefV, ErrorV>(h)
}

/// Whether each part of a `propstat` reads back.
pub open spec fn propstat_reads_back(p: PropstatV) -> bool {
    status_reads_back(p.status)
}

/// Whether each part of a `response` reads back: it names at least one
/// `propstat` or `href`, and each reads back.
pub open spec fn response_reads_back(r: ResponseV) -> bool {
    match r {
        ResponseV::Propstat { href, propstat, .. } => {
            &&& href_reads_back(href)
            &&& propstat.len() > 0
            &&& forall|i: int| 0 <= i < propstat.len() ==> #[trigger] propstat_reads_back(propstat[i])
        },
        ResponseV::Status { href, status, .. } => {
            &&& href.len() > 0
            &&& forall|i: int| 0 <= i < href.len() ==> #[trigger] href_reads_back(href[i])
            &&& status_reads_back(status)
        },
    }
}

/// The names of the children of `propstat`, `response` and `multistatus`
/// differ from each other.
proof fn lemma_multistatus_names()
    ensures
        dav_key("prop"@) != dav_key("status"@),
        dav_key("prop"@) != dav_key("responsedescription"@),
        dav_key("status"@) != dav_key("responsedescription"@),
        dav_key("href"@) != dav_key("propstat"@),
        dav_key("href"@) != dav_key("status"@),
        dav_key("href"@) != dav_key("responsedescription"@),
        dav_key("propstat"@) != dav_key("responsedescription"@),
        dav_key("status"@) != dav_key("propstat"@),
        dav_key("response"@) != dav_key("responsedescription"@),
{
    reveal_strlit("prop");
    reveal_strlit("status");
    reveal_strlit("responsedescription");
    reveal_strlit("href");
    reveal_strlit("propstat");
    reveal_strlit("response");
    assert("prop"@.len() == 4 && "href"@.len() == 4);
    assert("status"@.len() == 6);
    assert("responsedescription"@.len() == 19);
    assert("propstat"@.len() == 8 && "response"@.len() == 8);
}

/// Looking a name up after an optional description.
proof fn lemma_with_description_get(m: MapV, d: Option<Seq<char>>, k: NameKey)
    ensures
        with_description(m, d).get(k) == match d {
            Some(t) => if dav_key("responsedescription"@) == k {
                Some(ValueV::Text(t))
            } else {
                m.get(k)
            },
            None => m.get(k),
        },
{
    match d {
        Some(t) => crate::value::lemma_insert_get(m, dav_name("responsedescription"@), ValueV::Text(t), k),
        None => {},
    }
}

/// A `propstat` reads back from the value it is written as, when its
/// status does.
pub proof fn lemma_propstat_round_trip(x: PropstatV)
    requires
        propstat_reads_back(x),
    ensures
        Propstat::spec_from_value(Propstat::spec_into_value(x)) == Ok::<PropstatV, ErrorV>(x),
{
    lemma_multistatus_names();
    let a = MapV::empty().insert(dav_name("prop"@), ValueV::Elements(x.prop));
    let b = a.insert(dav_name("status"@), Status::spec_into_value(x.status));
    let m = with_description(b, x.responsedescription);
    let keys = seq![dav_key("prop"@), dav_key("status"@), dav_key("responsedescription"@)];
    assert forall|i: int| 0 <= i < 3 implies #[trigger] m.get(keys[i]) == if i == 0 {
        Some(ValueV::Elements(x.prop))
    } else if i == 1 {
        Some(Status::spec_into_value(x.status))
    } else {
        match x.responsedescription {
            Some(t) => Some(ValueV::Text(t)),
            None => None,
        }
    } by {
        crate::value::lemma_single_get(dav_name("prop"@), ValueV::Elements(x.prop), keys[i]);
        crate::value::lemma_insert_get(a, dav_name("status"@), Status::spec_into_value(x.status), keys[i]);
        lemma_with_description_get(b, x.responsedescription, keys[i]);
    }
    assert(m.get(keys[0]) == Some(ValueV::Elements(x.prop)));
    assert(m.get(keys[1]) == Some(Status::spec_into_value(x.status)));
    assert(m.get(keys[2]) == match x.responsedescription {
        Some(t) => Some(ValueV::Text(t)),
        None => None::<ValueV>,
    });
    crate::elements::status::lemma_status_round_trip(x.status);
    match x.responsedescription {
        Some(t) => crate::elements::wrapped::lemma_text_elements_round_trip(t, ValueV::Empty),
        None => {},
    }
}

/// A `response` reads back from the value it is written as, when it names
/// at least one `propstat` or `href` and each of its parts reads back.
pub proof fn lemma_response_round_trip(x: ResponseV)
    requires
        response_reads_back(x),
    ensures
        Response::spec_from_value(Response::spec_into_value(x)) == Ok::<ResponseV, ErrorV>(x),
{
    lemma_multistatus_names();
    match x {
        ResponseV::Propstat { href, propstat, responsedescription } => {
            let pv = ValueV::List(propstat.map_values(|p: PropstatV| Propstat::spec_into_value(p)));
            let a = MapV::empty().insert(dav_name("href"@), Href::spec_into_value(href));
            let b = a.insert(dav_name("propstat"@), pv);
            let m = with_description(b, responsedescription);
            let keys = seq![dav_key("href"@), dav_key("propstat"@), dav_key("responsedescription"@)];
            assert forall|i: int| 0 <= i < 3 implies #[trigger] m.get(keys[i]) == if i == 0 {
                Some(Href::spec_into_value(href))
            } else if i == 1 {
                Some(pv)
            } else {
                match responsedescription {
                    Some(t) => Some(ValueV::Text(t)),
                    None => None,
                }
            } by {
                crate::value::lemma_single_get(dav_name("href"@), Href::spec_into_value(href), keys[i]);
                crate::value::lemma_insert_get(a, dav_name("propstat"@), pv, keys[i]);
                lemma_with_description_get(b, responsedescription, keys[i]);
            }
            assert(m.get(keys[0]) == Some(Href::spec_into_value(href)));
            assert(m.get(keys[1]) == Some(pv));
            assert(m.get(keys[2]) == match responsedescription {
                Some(t) => Some(ValueV::Text(t)),
                None => None::<ValueV>,
            });
            assert forall|i: int| 0 <= i < propstat.len() implies #[trigger] Propstat::spec_from_value(Propstat::spec_into_value(propstat[i])) == Ok::<PropstatV, ErrorV>(propstat[i]) by {
                assert(propstat_reads_back(propstat[i]));
                lemma_propstat_round_trip(propstat[i]);
            }
            crate::element::lemma_parse_all_into_values::<Propstat>(propstat);
            assert(siblings(m.get(element_key::<Propstat>())) =~= crate::element::into_values::<Propstat>(propstat));
            match responsedescription {
                Some(t) => crate::elements::wrapped::lemma_text_elements_round_trip(t, ValueV::Empty),
                None => {},
            }
        },
        ResponseV::Status { href, status, responsedescription } => {
            let hv = ValueV::List(href.map_values(|h: HrefV| Href::spec_into_value(h)));
            let a = MapV::empty().insert(dav_name("href"@), hv);
            let b = a.insert(dav_name("status"@), Status::spec_into_value(status));
            let m = with_description(b, responsedescription);
            let keys = seq![dav_key("href"@), dav_key("status"@), dav_key("responsedescription"@), dav_key("propstat"@)];
            assert forall|i: int| 0 <= i < 4 implies #[trigger] m.get(keys[i]) == if i == 0 {
                Some(hv)
            } else if i == 1 {
                Some(Status::spec_into_value(status))
            } else if i == 2 {
                match responsedescription {
                    Some(t) => Some(ValueV::Text(t)),
                    None => None,
                }
            } else {
                None
            } by {
                crate::value::lemma_single_get(dav_name("href"@), hv, keys[i]);
                crate::value::lemma_insert_get(a, dav_name("status"@), Status::spec_into_value(status), keys[i]);
                lemma_with_description_get(b, responsedescription, keys[i]);
            }
            assert(m.get(keys[0]) == Some(hv));
            assert(m.get(keys[1]) == Some(Status::spec_into_value(status)));
            assert(m.get(keys[2]) == match responsedescription {
                Some(t) => Some(ValueV::Text(t)),
                None => None::<ValueV>,
            });
            assert(m.get(keys[3]) == None::<ValueV>);
            assert(siblings(m.get(element_key::<Propstat>())) =~= Seq::<ValueV>::empty());
            assert forall|i: int| 0 <= i < href.len() implies #[trigger] Href::spec_from_value(Href::spec_into_value(href[i])) == Ok::<HrefV, ErrorV>(href[i]) by {
                assert(href_reads_back(href[i]));
            }
            crate::element::lemma_parse_all_into_values::<Href>(href);
            assert(siblings(m.get(element_key::<Href>())) =~= crate::element::into_values::<Href>(href));
            crate::elements::status::lemma_status_round_trip(status);
            match responsedescription {
                Some(t) => crate::elements::wrapped::lemma_text_elements_round_trip(t, ValueV::Empty),
                None => {},
            }
        },
    }
}

/// A `multistatus` reads back from the value it is written as, when it
/// holds at least one response and each reads back.
pub proof fn lemma_multistatus_round_trip(x: MultistatusV)
    requires
        x.response.len() > 0,
        forall|i: int| 0 <= i < x.response.len() ==> #[trigger] response_reads_back(x.response[i]),
    ensures
        Multistatus::spec_from_value(Multistatus::spec_into_value(x)) == Ok::<MultistatusV, ErrorV>(x),
{
    lemma_multistatus_names();
    let rv = ValueV::List(x.response.map_values(|r: ResponseV| Response::spec_into_value(r)));
    let a = MapV::empty().insert(dav_name("response"@), rv);
    let m = with_description(a, x.responsedescription);
    let keys = seq![dav_key("response"@), dav_key("responsedescription"@)];
    assert forall|i: int| 0 <= i < 2 implies #[trigger] m.get(keys[i]) == if i == 0 {
        Some(rv)
    } else {
        match x.responsedescription {
            Some(t) => Some(ValueV::Text(t)),
            None => None,
        }
    } by {
        crate::value::lemma_single_get(dav_name("response"@), rv, keys[i]);
        lemma_with_description_get(a, x.responsedescription, keys[i]);
    }
    assert(m.get(keys[0]) == Some(rv));
    assert(m.get(keys[1]) == match x.responsedescription {
        Some(t) => Some(ValueV::Text(t)),
        None => None::<ValueV>,
    });
    assert forall|i: int| 0 <= i < x.response.len() implies #[trigger] Response::spec_from_value(Response::spec_into_value(x.response[i])) == Ok::<ResponseV, ErrorV>(x.response[i]) by {
        lemma_response_round_trip(x.response[i]);
    }
    crate::element::lemma_parse_all_into_values::<Response>(x.response);
    assert(siblings(m.get(element_key::<Response>())) =~= crate::element::into_values::<Response>(x.response));
    match x.responsedescription {
        Some(t) => crate::elements::wrapped::lemma_text_elements_round_trip(t, ValueV::Empty),
        None => {},
    }
}

/// Whether a response names at least one `propstat`, or at least one
/// `href` for its status.
pub open spec fn response_non_empty(r: ResponseV) -> bool {
    match r {
        ResponseV::Propstat { propstat, .. } => propstat.len() > 0,
        ResponseV::Status { href, .. } => href.len() > 0,
    }
}

/// A response read from a value names at least one `propstat`, or at least
/// one `href` for its status.
pub proof fn lemma_response_read_non_empty(v: ValueV)
    ensures
        Response::spec_from_value(v) matches Ok(r) ==> response_non_empty(r),
{
}

} // verus!
