//! Ready-made building blocks: prototype stubs for streamlets, helper
//! component shapes, and the small value types of the architecture level.

use vstd::prelude::*;

use crate::common::{Component, ComponentV, Mode, Parameter, Port, PortV, Type, TypeV};
use crate::design::{Implementation, Interface, Project, Streamlet, StreamletHandle};
use crate::physical::Width;
use crate::logical::LogicalType;
use crate::{Error, Name};

verus! {

// ---------------------------------------------------------------------------
// Stubs
// ---------------------------------------------------------------------------

/// A prototype implementation of a streamlet, for wiring a dependency graph
/// before the real implementation exists: a source drives default values, a
/// sink consumes, a passthrough hands inputs to outputs.
#[derive(Debug)]
pub enum Stub {
    /// No stream inputs: drives its outputs.
    Source(Streamlet),
    /// No stream outputs: consumes its inputs.
    Sink(Streamlet),
    /// Both: passes inputs through.
    Passthrough(Streamlet),
}

/// Whether any interface of the list has the given mode and a stream type.
pub open spec fn has_stream_iface(ifaces: Seq<Interface>, m: crate::design::Mode) -> bool {
    exists|i: int|
        0 <= i < ifaces.len() && (#[trigger] ifaces[i]).mode_spec() == m && ifaces[i].typ_spec()
            is Stream
}

/// The interfaces of one mode whose type is a stream, in declaration order.
pub open spec fn stream_iface_filter(ifaces: Seq<Interface>, m: crate::design::Mode) -> Seq<
    Interface,
>
    decreases ifaces,
{
    if ifaces.len() == 0 {
        Seq::empty()
    } else {
        let head: Seq<Interface> = if ifaces[0].mode_spec() == m && ifaces[0].typ_spec()
            is Stream {
            seq![ifaces[0]]
        } else {
            Seq::empty()
        };
        head + stream_iface_filter(ifaces.skip(1), m)
    }
}

/// Every filtered interface has the filter's mode, a stream type, and is one
/// of the source interfaces.
pub proof fn lemma_stream_filter_elems(ifaces: Seq<Interface>, m: crate::design::Mode)
    ensures
        forall|k: int|
            0 <= k < stream_iface_filter(ifaces, m).len() ==> (#[trigger] stream_iface_filter(
                ifaces,
                m,
            )[k]).mode_spec() == m && stream_iface_filter(ifaces, m)[k].typ_spec() is Stream,
        forall|k: int|
            0 <= k < stream_iface_filter(ifaces, m).len() ==> exists|i: int|
                0 <= i < ifaces.len() && #[trigger] stream_iface_filter(ifaces, m)[k] == ifaces[i],
        stream_iface_filter(ifaces, m).len() > 0 <==> has_stream_iface(ifaces, m),
    decreases ifaces,
{
    if ifaces.len() > 0 {
        lemma_stream_filter_elems(ifaces.skip(1), m);
        let flt = stream_iface_filter(ifaces, m);
        let head: Seq<Interface> = if ifaces[0].mode_spec() == m && ifaces[0].typ_spec()
            is Stream {
            seq![ifaces[0]]
        } else {
            Seq::empty()
        };
        let rest = stream_iface_filter(ifaces.skip(1), m);
        assert forall|k: int| 0 <= k < flt.len() implies (#[trigger] flt[k]).mode_spec() == m
            && flt[k].typ_spec() is Stream && (exists|i: int|
            0 <= i < ifaces.len() && flt[k] == ifaces[i]) by {
            if k < head.len() {
                assert(flt[k] == ifaces[0]);
            } else {
                assert(flt[k] == rest[k - head.len()]);
                let i = choose|i: int|
                    0 <= i < ifaces.skip(1).len() && #[trigger] rest[k - head.len()]
                        == ifaces.skip(1)[i];
                assert(ifaces.skip(1)[i] == ifaces[i + 1]);
            }
        };
        if has_stream_iface(ifaces, m) && head.len() == 0 {
            let i = choose|i: int|
                0 <= i < ifaces.len() && (#[trigger] ifaces[i]).mode_spec() == m
                    && ifaces[i].typ_spec() is Stream;
            assert(i > 0);
            assert(ifaces.skip(1)[i - 1] == ifaces[i]);
            assert(has_stream_iface(ifaces.skip(1), m));
        }
        if flt.len() > 0 && head.len() == 0 {
            assert(rest.len() > 0);
            let i = choose|i: int|
                0 <= i < ifaces.skip(1).len() && (#[trigger] ifaces.skip(1)[i]).mode_spec() == m
                    && ifaces.skip(1)[i].typ_spec() is Stream;
            assert(ifaces.skip(1)[i] == ifaces[i + 1]);
        }
    }
}

/// The names of a filtered list stay pairwise distinct, and the two modes'
/// filters share no name, when the source names are pairwise distinct.
pub proof fn lemma_stream_filter_unique(ifaces: Seq<Interface>)
    requires
        crate::design::unique_interface_names(ifaces),
    ensures
        crate::design::unique_interface_names(
            stream_iface_filter(ifaces, crate::design::Mode::In) + stream_iface_filter(
                ifaces,
                crate::design::Mode::Out,
            ),
        ),
{
    let fin = stream_iface_filter(ifaces, crate::design::Mode::In);
    let fout = stream_iface_filter(ifaces, crate::design::Mode::Out);
    lemma_stream_filter_elems(ifaces, crate::design::Mode::In);
    lemma_stream_filter_elems(ifaces, crate::design::Mode::Out);
    lemma_stream_filter_distinct(ifaces, crate::design::Mode::In);
    lemma_stream_filter_distinct(ifaces, crate::design::Mode::Out);
    let whole = fin + fout;
    assert forall|p: int, q: int| 0 <= p < q < whole.len() implies (#[trigger] whole[p])
        .name_spec() != (#[trigger] whole[q]).name_spec() by {
        if p < fin.len() && q >= fin.len() {
            let a = choose|i: int| 0 <= i < ifaces.len() && #[trigger] fin[p] == ifaces[i];
            let b = choose|i: int|
                0 <= i < ifaces.len() && #[trigger] fout[q - fin.len()] == ifaces[i];
            assert(whole[p] == ifaces[a] && whole[q] == ifaces[b]);
            assert(ifaces[a].mode_spec() != ifaces[b].mode_spec());
            if a < b {
                assert(ifaces[a].name_spec() != ifaces[b].name_spec());
            } else {
                assert(ifaces[b].name_spec() != ifaces[a].name_spec());
            }
        } else if q < fin.len() {
            assert(fin[p].name_spec() != fin[q].name_spec());
        } else {
            assert(fout[p - fin.len()].name_spec() != fout[q - fin.len()].name_spec());
        }
    };
}

/// A filter of a uniquely named list is itself uniquely named.
proof fn lemma_stream_filter_distinct(ifaces: Seq<Interface>, m: crate::design::Mode)
    requires
        crate::design::unique_interface_names(ifaces),
    ensures
        crate::design::unique_interface_names(stream_iface_filter(ifaces, m)),
    decreases ifaces,
{
    if ifaces.len() > 0 {
        assert forall|p: int, q: int| 0 <= p < q < ifaces.skip(1).len() implies (
        #[trigger] ifaces.skip(1)[p]).name_spec() != (#[trigger] ifaces.skip(1)[q]).name_spec()
            by {
            assert(ifaces.skip(1)[p] == ifaces[p + 1] && ifaces.skip(1)[q] == ifaces[q + 1]);
        };
        lemma_stream_filter_distinct(ifaces.skip(1), m);
        lemma_stream_filter_elems(ifaces.skip(1), m);
        let flt = stream_iface_filter(ifaces, m);
        let head: Seq<Interface> = if ifaces[0].mode_spec() == m && ifaces[0].typ_spec()
            is Stream {
            seq![ifaces[0]]
        } else {
            Seq::empty()
        };
        let rest = stream_iface_filter(ifaces.skip(1), m);
        assert forall|p: int, q: int| 0 <= p < q < flt.len() implies (#[trigger] flt[p])
            .name_spec() != (#[trigger] flt[q]).name_spec() by {
            if p < head.len() {
                assert(flt[p] == ifaces[0]);
                assert(flt[q] == rest[q - head.len()]);
                let i = choose|i: int|
                    0 <= i < ifaces.skip(1).len() && #[trigger] rest[q - head.len()]
                        == ifaces.skip(1)[i];
                assert(ifaces.skip(1)[i] == ifaces[i + 1]);
                assert(ifaces[0].name_spec() != ifaces[i + 1].name_spec());
            } else {
                assert(flt[p] == rest[p - head.len()] && flt[q] == rest[q - head.len()]);
            }
        };
    }
}

/// The filtered interfaces of the first `i` source interfaces.
pub open spec fn stream_filter_upto(
    ifaces: Seq<Interface>,
    m: crate::design::Mode,
    i: int,
) -> Seq<Interface>
    decreases i,
{
    if i <= 0 {
        Seq::empty()
    } else {
        stream_filter_upto(ifaces, m, i - 1) + (if ifaces[i - 1].mode_spec() == m && ifaces[i
            - 1].typ_spec() is Stream {
            seq![ifaces[i - 1]]
        } else {
            Seq::empty()
        })
    }
}

proof fn lemma_stream_filter_step(ifaces: Seq<Interface>, m: crate::design::Mode, i: int)
    requires
        0 <= i <= ifaces.len(),
    ensures
        stream_filter_upto(ifaces, m, i) + stream_filter_from(ifaces, m, i) == stream_filter_from(
            ifaces,
            m,
            0,
        ),
    decreases i,
{
    if i == 0 {
        assert(stream_filter_upto(ifaces, m, 0) + stream_filter_from(ifaces, m, 0)
            =~= stream_filter_from(ifaces, m, 0));
    } else {
        lemma_stream_filter_step(ifaces, m, i - 1);
        let head: Seq<Interface> = if ifaces[i - 1].mode_spec() == m && ifaces[i - 1].typ_spec()
            is Stream {
            seq![ifaces[i - 1]]
        } else {
            Seq::empty()
        };
        assert((stream_filter_upto(ifaces, m, i - 1) + head) + stream_filter_from(ifaces, m, i)
            =~= stream_filter_upto(ifaces, m, i - 1) + (head + stream_filter_from(ifaces, m, i)));
    }
}

/// The filtered interfaces from index `i` on.
pub open spec fn stream_filter_from(
    ifaces: Seq<Interface>,
    m: crate::design::Mode,
    i: int,
) -> Seq<Interface>
    decreases ifaces.len() - i,
{
    if i < 0 || i >= ifaces.len() {
        Seq::empty()
    } else {
        (if ifaces[i].mode_spec() == m && ifaces[i].typ_spec() is Stream {
            seq![ifaces[i]]
        } else {
            Seq::empty()
        }) + stream_filter_from(ifaces, m, i + 1)
    }
}

proof fn lemma_stream_filter_from_shift(ifaces: Seq<Interface>, m: crate::design::Mode, i: int)
    requires
        1 <= i <= ifaces.len(),
    ensures
        stream_filter_from(ifaces, m, i) == stream_filter_from(ifaces.skip(1), m, i - 1),
    decreases ifaces.len() - i,
{
    if i < ifaces.len() {
        lemma_stream_filter_from_shift(ifaces, m, i + 1);
        assert(ifaces.skip(1)[i - 1] == ifaces[i]);
    } else {
        assert(stream_filter_from(ifaces, m, i) =~= stream_filter_from(ifaces.skip(1), m, i - 1));
    }
}

proof fn lemma_stream_filter_as_from(ifaces: Seq<Interface>, m: crate::design::Mode)
    ensures
        stream_iface_filter(ifaces, m) == stream_filter_from(ifaces, m, 0),
    decreases ifaces,
{
    if ifaces.len() > 0 {
        lemma_stream_filter_as_from(ifaces.skip(1), m);
        lemma_stream_filter_from_shift(ifaces, m, 1);
    } else {
        assert(stream_iface_filter(ifaces, m) =~= stream_filter_from(ifaces, m, 0));
    }
}

/// The whole filter is the prefix over all interfaces.
pub proof fn lemma_stream_filter_full(ifaces: Seq<Interface>, m: crate::design::Mode)
    ensures
        stream_filter_upto(ifaces, m, ifaces.len() as int) == stream_iface_filter(ifaces, m),
{
    lemma_stream_filter_step(ifaces, m, ifaces.len() as int);
    lemma_stream_filter_as_from(ifaces, m);
    assert(stream_filter_from(ifaces, m, ifaces.len() as int) =~= Seq::<Interface>::empty());
    assert(stream_filter_upto(ifaces, m, ifaces.len() as int) + Seq::<Interface>::empty()
        =~= stream_filter_upto(ifaces, m, ifaces.len() as int));
}

/// Whether two interfaces carry the same name, mode and type.
pub open spec fn iface_like(a: Interface, b: Interface) -> bool {
    a.name_spec() == b.name_spec() && a.mode_spec() == b.mode_spec() && a.typ_spec()
        == b.typ_spec()
}

/// Collects the interfaces of one mode whose type is a stream, in order.
fn stream_ifaces(ifaces: &Vec<Interface>, m: crate::design::Mode, out: &mut Vec<Interface>)
    ensures
        final(out)@.len() == old(out)@.len() + stream_iface_filter(ifaces@, m).len(),
        forall|j: int|
            0 <= j < old(out)@.len() ==> iface_like(#[trigger] final(out)@[j], old(out)@[j]),
        forall|j: int|
            0 <= j < stream_iface_filter(ifaces@, m).len() ==> iface_like(
                #[trigger] final(out)@[old(out)@.len() + j],
                stream_iface_filter(ifaces@, m)[j],
            ),
{
    let mut i: usize = 0;
    let ghost base = old(out)@.len();
    while i < ifaces.len()
        invariant
            i <= ifaces@.len(),
            out@.len() == base + stream_filter_upto(ifaces@, m, i as int).len(),
            forall|j: int| 0 <= j < base ==> iface_like(#[trigger] out@[j], old(out)@[j]),
            forall|j: int|
                0 <= j < stream_filter_upto(ifaces@, m, i as int).len() ==> iface_like(
                    #[trigger] out@[base + j],
                    stream_filter_upto(ifaces@, m, i as int)[j],
                ),
        decreases ifaces@.len() - i,
    {
        let iface = &ifaces[i];
        let same_mode = match (iface.mode(), m) {
            (crate::design::Mode::In, crate::design::Mode::In) => true,
            (crate::design::Mode::Out, crate::design::Mode::Out) => true,
            _ => false,
        };
        let is_stream = matches!(iface.typ(), LogicalType::Stream(_));
        let ghost pre = out@;
        if same_mode && is_stream {
            out.push(iface.clone());
        }
        proof {
            let upto_i = stream_filter_upto(ifaces@, m, i as int);
            let upto_i1 = stream_filter_upto(ifaces@, m, (i + 1) as int);
            let head: Seq<Interface> = if ifaces@[i as int].mode_spec() == m
                && ifaces@[i as int].typ_spec() is Stream {
                seq![ifaces@[i as int]]
            } else {
                Seq::empty()
            };
            assert(upto_i1 == upto_i + head);
            assert forall|j: int| 0 <= j < upto_i1.len() implies iface_like(
                #[trigger] out@[base + j],
                upto_i1[j],
            ) by {
                if j < upto_i.len() {
                    assert(out@[base + j] == pre[base + j]);
                    assert(upto_i1[j] == upto_i[j]);
                } else {
                    assert(upto_i1[j] == ifaces@[i as int]);
                }
            };
        }
        i = i + 1;
    }
    proof {
        lemma_stream_filter_full(ifaces@, m);
    }
}

impl Stub {
    /// The interfaces of the wrapped streamlet.
    pub open spec fn streamlet_ifaces(&self) -> Seq<Interface> {
        match self {
            Stub::Source(s) => s.interfaces_spec(),
            Stub::Sink(s) => s.interfaces_spec(),
            Stub::Passthrough(s) => s.interfaces_spec(),
        }
    }

    /// The name of the wrapped streamlet.
    pub open spec fn stub_name(&self) -> Seq<char> {
        match self {
            Stub::Source(s) => s.name_spec(),
            Stub::Sink(s) => s.name_spec(),
            Stub::Passthrough(s) => s.name_spec(),
        }
    }

    /// Whether the wrapped streamlet has an implementation attached.
    pub open spec fn stub_has_impl(&self) -> bool {
        match self {
            Stub::Source(s) => s.has_implementation(),
            Stub::Sink(s) => s.has_implementation(),
            Stub::Passthrough(s) => s.has_implementation(),
        }
    }

    /// The streamlet this stub wraps.
    pub fn streamlet(&self) -> (r: &Streamlet)
        ensures
            r.interfaces_spec() == self.streamlet_ifaces(),
            r.name_spec() == self.stub_name(),
    {
        match self {
            Stub::Source(s) => s,
            Stub::Sink(s) => s,
            Stub::Passthrough(s) => s,
        }
    }

    /// Builds a stub around a streamlet: a source when it has no stream
    /// input, a sink when it has no stream output, a passthrough when it has
    /// both; the stub's streamlet carries exactly the operand's stream
    /// interfaces, in order, under the given name. Fails exactly when the
    /// operand has no stream interface at all.
    pub fn from_streamlet(op: &Streamlet, name: Name) -> (r: Result<Stub, Error>)
        ensures
            r is Ok <==> (has_stream_iface(op.interfaces_spec(), crate::design::Mode::In)
                || has_stream_iface(op.interfaces_spec(), crate::design::Mode::Out)),
            r is Err ==> r->Err_0 is ComposerError && r->Err_0->ComposerError_0@
                == "No input or output Stream defined."@,
            r is Ok ==> ((r->Ok_0 is Source <==> !has_stream_iface(
                op.interfaces_spec(),
                crate::design::Mode::In,
            )) && (r->Ok_0 is Sink <==> has_stream_iface(
                op.interfaces_spec(),
                crate::design::Mode::In,
            ) && !has_stream_iface(op.interfaces_spec(), crate::design::Mode::Out)) && (r->Ok_0
                is Passthrough <==> has_stream_iface(
                op.interfaces_spec(),
                crate::design::Mode::In,
            ) && has_stream_iface(op.interfaces_spec(), crate::design::Mode::Out))),
            r is Ok ==> r->Ok_0.stub_name() == name@,
            r is Ok ==> r->Ok_0.streamlet_ifaces().len() == (stream_iface_filter(
                op.interfaces_spec(),
                crate::design::Mode::In,
            ) + stream_iface_filter(op.interfaces_spec(), crate::design::Mode::Out)).len(),
            r is Ok ==> (forall|k: int|
                0 <= k < r->Ok_0.streamlet_ifaces().len() ==> iface_like(
                    #[trigger] r->Ok_0.streamlet_ifaces()[k],
                    (stream_iface_filter(op.interfaces_spec(), crate::design::Mode::In)
                        + stream_iface_filter(op.interfaces_spec(), crate::design::Mode::Out))[k],
                )),
            r is Ok ==> (match r->Ok_0 {
                Stub::Source(s) => !has_stream_iface(
                    s.interfaces_spec(),
                    crate::design::Mode::In,
                ) && has_stream_iface(s.interfaces_spec(), crate::design::Mode::Out),
                Stub::Sink(s) => has_stream_iface(s.interfaces_spec(), crate::design::Mode::In)
                    && !has_stream_iface(s.interfaces_spec(), crate::design::Mode::Out),
                Stub::Passthrough(s) => has_stream_iface(
                    s.interfaces_spec(),
                    crate::design::Mode::In,
                ) && has_stream_iface(s.interfaces_spec(), crate::design::Mode::Out),
            }),
            r is Ok ==> (forall|i: int|
                0 <= i < r->Ok_0.streamlet_ifaces().len() ==> (#[trigger] r->Ok_0
                    .streamlet_ifaces()[i]).typ_spec() is Stream),
    {
        let src = op.interfaces();
        let ghost sv = src@;
        let ghost fin = stream_iface_filter(sv, crate::design::Mode::In);
        let ghost fout = stream_iface_filter(sv, crate::design::Mode::Out);
        let mut ifaces: Vec<Interface> = Vec::new();
        stream_ifaces(src, crate::design::Mode::In, &mut ifaces);
        let n_in = ifaces.len();
        let ghost mid = ifaces@;
        stream_ifaces(src, crate::design::Mode::Out, &mut ifaces);
        let n_out = ifaces.len() - n_in;
        proof {
            lemma_stream_filter_elems(sv, crate::design::Mode::In);
            lemma_stream_filter_elems(sv, crate::design::Mode::Out);
        }
        if n_in == 0 && n_out == 0 {
            return Err(
                Error::ComposerError(String::from_str("No input or output Stream defined.")),
            );
        }
        let ghost iv = ifaces@;
        let ghost flt = fin + fout;
        proof {
            assert forall|k: int| 0 <= k < iv.len() implies iface_like(
                #[trigger] iv[k],
                flt[k],
            ) by {
                if k < fin.len() {
                    assert(iface_like(iv[k], mid[k]));
                    assert(iface_like(mid[0 + k], fin[k]));
                } else {
                    assert(iface_like(iv[mid.len() + (k - n_in)], fout[k - n_in]));
                }
            };
            lemma_stream_filter_unique(sv);
            assert forall|p: int, q: int| 0 <= p < q < iv.len() implies (#[trigger] iv[p])
                .name_spec() != (#[trigger] iv[q]).name_spec() by {
                assert(flt[p].name_spec() != flt[q].name_spec());
            };
            assert forall|k: int| 0 <= k < iv.len() implies (#[trigger] iv[k]).typ_spec()
                is Stream by {
                assert(iface_like(iv[k], flt[k]));
                if k < fin.len() {
                } else {
                }
            };
        }
        let streamlet = match Streamlet::from_builder(name, ifaces, None) {
            Ok(s) => s,
            Err(_) => {
                proof {
                    assert(false);
                }
                unreached()
            }
        };
        proof {
            if n_in == 0 {
                assert(iv[0].mode_spec() == crate::design::Mode::Out && iv[0].typ_spec()
                    is Stream) by {
                    assert(iface_like(iv[0], flt[0]));
                };
                assert(!has_stream_iface(iv, crate::design::Mode::In)) by {
                    assert forall|j: int| 0 <= j < iv.len() implies (#[trigger] iv[j]).mode_spec()
                        != crate::design::Mode::In by {
                        assert(iface_like(iv[j], flt[j]));
                    };
                };
                assert(has_stream_iface(iv, crate::design::Mode::Out));
            } else if n_out == 0 {
                assert(iv[0].mode_spec() == crate::design::Mode::In && iv[0].typ_spec()
                    is Stream) by {
                    assert(iface_like(iv[0], flt[0]));
                };
                assert(!has_stream_iface(iv, crate::design::Mode::Out)) by {
                    assert forall|j: int| 0 <= j < iv.len() implies (#[trigger] iv[j]).mode_spec()
                        != crate::design::Mode::Out by {
                        assert(iface_like(iv[j], flt[j]));
                    };
                };
                assert(has_stream_iface(iv, crate::design::Mode::In));
            } else {
                assert(iface_like(iv[0], flt[0]));
                assert(has_stream_iface(iv, crate::design::Mode::In));
                assert(iface_like(iv[n_in as int], flt[n_in as int]));
                assert(has_stream_iface(iv, crate::design::Mode::Out));
            }
        }
        Ok(
            if n_in == 0 {
                Stub::Source(streamlet)
            } else if n_out == 0 {
                Stub::Sink(streamlet)
            } else {
                Stub::Passthrough(streamlet)
            },
        )
    }

    /// Builds a stub for a streamlet looked up in the project. The
    /// classification and interfaces are those of `from_streamlet`, relative
    /// to the named streamlet; a failed lookup is an invalid argument, a
    /// streamlet without any stream interface a composition error.
    pub fn try_new(project: &Project, name: Name, op: StreamletHandle) -> (r: Result<Stub, Error>)
        ensures
            r is Ok ==> (match r->Ok_0 {
                Stub::Source(s) => !has_stream_iface(
                    s.interfaces_spec(),
                    crate::design::Mode::In,
                ) && has_stream_iface(s.interfaces_spec(), crate::design::Mode::Out),
                Stub::Sink(s) => has_stream_iface(s.interfaces_spec(), crate::design::Mode::In)
                    && !has_stream_iface(s.interfaces_spec(), crate::design::Mode::Out),
                Stub::Passthrough(s) => has_stream_iface(
                    s.interfaces_spec(),
                    crate::design::Mode::In,
                ) && has_stream_iface(s.interfaces_spec(), crate::design::Mode::Out),
            }),
            r is Ok ==> r->Ok_0.stub_name() == name@,
            r is Ok ==> (forall|i: int|
                0 <= i < r->Ok_0.streamlet_ifaces().len() ==> (#[trigger] r->Ok_0
                    .streamlet_ifaces()[i]).typ_spec() is Stream),
            r is Ok ==> (exists|li: int, si: int|
                0 <= li < project.libraries_spec().len() && (#[trigger] project.libraries_spec()[
                li]).name_spec() == op.lib@ && 0 <= si < project.libraries_spec()[
                li].streamlets_spec().len() && (#[trigger] project.libraries_spec()[
                li].streamlets_spec()[si]).name_spec() == op.streamlet@ && stub_matches(
                    r->Ok_0,
                    project.libraries_spec()[li].streamlets_spec()[si].interfaces_spec(),
                )),
            r is Err ==> (r->Err_0 is InvalidArgument || r->Err_0 is ComposerError),
            r is Err && r->Err_0 is ComposerError ==> r->Err_0->ComposerError_0@
                == "No input or output Stream defined."@,
            !(exists|i: int|
                0 <= i < project.libraries_spec().len() && (#[trigger] project.libraries_spec()[i])
                    .name_spec() == op.lib@) ==> r is Err && r->Err_0 is InvalidArgument,
    {
        let lib = match project.get_lib(&op.lib) {
            Ok(l) => l,
            Err(e) => {
                return Err(e);
            }
        };
        let op_streamlet = match lib.get_streamlet(&op.streamlet) {
            Ok(s) => s,
            Err(e) => {
                return Err(e);
            }
        };
        Stub::from_streamlet(op_streamlet, name)
    }

    /// Attaches the matching backend to the stub's streamlet: a source stub
    /// gets a source backend, and so on. Succeeds exactly when no
    /// implementation is attached yet; the wrapped streamlet is otherwise
    /// unchanged.
    pub fn with_backend(&mut self, name: Name, streamlet_handle: StreamletHandle) -> (r: Result<
        (),
        Error,
    >)
        ensures
            r is Ok <==> !old(self).stub_has_impl(),
            r is Ok ==> final(self).stub_has_impl(),
            final(self).stub_name() == old(self).stub_name(),
            final(self).streamlet_ifaces() == old(self).streamlet_ifaces(),
            r is Err ==> r->Err_0 is ComposerError,
    {
        match self {
            Stub::Source(s) => {
                let backend = SourceStubBackend { name, streamlet_handle };
                match s.attach_implementation(
                    Implementation::Backend {
                        name: backend.name,
                        streamlet: backend.streamlet_handle,
                    },
                ) {
                    Ok(()) => Ok(()),
                    Err(e) => Err(e),
                }
            }
            Stub::Sink(s) => {
                let backend = SinkStubBackend { name, streamlet_handle };
                match s.attach_implementation(
                    Implementation::Backend {
                        name: backend.name,
                        streamlet: backend.streamlet_handle,
                    },
                ) {
                    Ok(()) => Ok(()),
                    Err(e) => Err(e),
                }
            }
            Stub::Passthrough(s) => {
                let backend = PassthroughStubBackend { name, streamlet_handle };
                match s.attach_implementation(
                    Implementation::Backend {
                        name: backend.name,
                        streamlet: backend.streamlet_handle,
                    },
                ) {
                    Ok(()) => Ok(()),
                    Err(e) => Err(e),
                }
            }
        }
    }

    /// Finishes the stub, handing it back.
    pub fn finish(self) -> (r: Stub)
        ensures
            r == self,
    {
        self
    }
}

/// Whether a stub is the one `from_streamlet` builds for a streamlet with
/// the given interfaces: the classification matches both ways, and the
/// stub's streamlet carries exactly the stream-typed interfaces, in order.
pub open spec fn stub_matches(stub: Stub, ifaces: Seq<Interface>) -> bool {
    let flt = stream_iface_filter(ifaces, crate::design::Mode::In) + stream_iface_filter(
        ifaces,
        crate::design::Mode::Out,
    );
    &&& (stub is Source <==> !has_stream_iface(ifaces, crate::design::Mode::In))
    &&& (stub is Sink <==> has_stream_iface(ifaces, crate::design::Mode::In)
        && !has_stream_iface(ifaces, crate::design::Mode::Out))
    &&& (stub is Passthrough <==> has_stream_iface(ifaces, crate::design::Mode::In)
        && has_stream_iface(ifaces, crate::design::Mode::Out))
    &&& stub.streamlet_ifaces().len() == flt.len()
    &&& (forall|k: int|
        0 <= k < flt.len() ==> iface_like(#[trigger] stub.streamlet_ifaces()[k], flt[k]))
}

/// The backend of a source stub: drives default values to its outputs.
#[derive(Debug)]
pub struct SourceStubBackend {
    pub name: Name,
    pub streamlet_handle: StreamletHandle,
}

/// The backend of a sink stub: consumes its inputs.
#[derive(Debug)]
pub struct SinkStubBackend {
    pub name: Name,
    pub streamlet_handle: StreamletHandle,
}

/// The backend of a passthrough stub: hands inputs to outputs.
#[derive(Debug)]
pub struct PassthroughStubBackend {
    pub name: Name,
    pub streamlet_handle: StreamletHandle,
}

} // verus!

verus! {

// ---------------------------------------------------------------------------
// Helper component shapes
// ---------------------------------------------------------------------------

/// The letters used for generated name sequences.
pub open spec fn alphabet() -> Seq<char> {
    "abcdefghijklmnopqrstuvwxyz"@
}

/// A number rendered as a letter sequence, the way spreadsheet columns are
/// counted: the first twenty-six numbers map to one letter, the next block
/// to two, and so on.
pub open spec fn alphabet_seq_spec(num: nat) -> Seq<char>
    decreases num,
{
    if num < 26 {
        alphabet().subrange(num as int, num as int + 1)
    } else {
        alphabet_seq_spec((num / 26 - 1) as nat) + alphabet_seq_spec((num % 26) as nat)
    }
}

/// Renders a number as a letter sequence.
pub fn alphabet_sequence(num: u32) -> (r: String)
    ensures
        r@ == alphabet_seq_spec(num as nat),
    decreases num,
{
    proof {
        reveal_strlit("abcdefghijklmnopqrstuvwxyz");
    }
    let letters = "abcdefghijklmnopqrstuvwxyz";
    if num < 26 {
        let piece = letters.substring_char(num as usize, (num + 1) as usize);
        String::from_str(piece)
    } else {
        let mut s = alphabet_sequence(num / 26 - 1);
        s.append(alphabet_sequence(num % 26).as_str());
        s
    }
}

/// The fixed shape of a stream buffering helper: a handshake pair on each
/// side and a data port of the given type, with a width parameter.
pub open spec fn slice_comp_spec(t: TypeV) -> ComponentV {
    ComponentV {
        name: "StreamSlice"@,
        parameters: seq![("DATA_WIDTH"@, TypeV::Bit)],
        ports: seq![
            PortV { name: "clk"@, mode: Mode::In, typ: TypeV::Bit, doc: None },
            PortV { name: "reset"@, mode: Mode::In, typ: TypeV::Bit, doc: None },
            PortV { name: "in_valid"@, mode: Mode::In, typ: TypeV::Bit, doc: None },
            PortV { name: "in_ready"@, mode: Mode::Out, typ: TypeV::Bit, doc: None },
            PortV { name: "in_data"@, mode: Mode::In, typ: t, doc: None },
            PortV { name: "out_valid"@, mode: Mode::Out, typ: TypeV::Bit, doc: None },
            PortV { name: "out_ready"@, mode: Mode::In, typ: TypeV::Bit, doc: None },
            PortV { name: "out_data"@, mode: Mode::Out, typ: t, doc: None },
        ],
        doc: Some(" A buffering slice over one stream."@),
    }
}

/// Builds the declaration of a stream buffering helper around a data type.
pub fn slice_comp(typ: Type) -> (r: Component)
    ensures
        r@ == slice_comp_spec(typ@),
{
    let ghost tv = typ@;
    let typ2 = typ.clone();
    let mut parameters: Vec<Parameter> = Vec::new();
    parameters.push(Parameter { name: String::from_str("DATA_WIDTH"), typ: Type::Bit });
    let mut ports: Vec<Port> = Vec::new();
    ports.push(Port::new_documented("clk", Mode::In, Type::Bit, None));
    ports.push(Port::new_documented("reset", Mode::In, Type::Bit, None));
    ports.push(Port::new_documented("in_valid", Mode::In, Type::Bit, None));
    ports.push(Port::new_documented("in_ready", Mode::Out, Type::Bit, None));
    ports.push(Port::new_documented("in_data", Mode::In, typ, None));
    ports.push(Port::new_documented("out_valid", Mode::Out, Type::Bit, None));
    ports.push(Port::new_documented("out_ready", Mode::In, Type::Bit, None));
    ports.push(Port::new_documented("out_data", Mode::Out, typ2, None));
    let r = Component::new(
        "StreamSlice",
        parameters,
        ports,
        Some(String::from_str(" A buffering slice over one stream.")),
    );
    proof {
        assert(r@ =~= slice_comp_spec(tv));
    }
    r
}

// ---------------------------------------------------------------------------
// Architecture-level value types
// ---------------------------------------------------------------------------

/// A value a standard logic wire can carry.
#[derive(Debug, Clone, Copy, PartialEq, Eq, Structural)]
pub enum StdLogicValue {
    /// Uninitialized.
    U,
    /// Unknown.
    X,
    /// Driven zero or one.
    Logic(bool),
    /// High impedance.
    Z,
    /// Weak signal.
    W,
    /// Weak signal, likely zero.
    L,
    /// Weak signal, likely one.
    H,
    /// Don't care.
    DontCare,
}

impl StdLogicValue {
    /// Parses the one-letter form of a standard logic value.
    pub fn from_char(val: char) -> (r: Result<StdLogicValue, Error>)
        ensures
            val == 'U' ==> r == Ok::<StdLogicValue, Error>(StdLogicValue::U),
            val == 'X' ==> r == Ok::<StdLogicValue, Error>(StdLogicValue::X),
            val == '1' ==> r == Ok::<StdLogicValue, Error>(StdLogicValue::Logic(true)),
            val == '0' ==> r == Ok::<StdLogicValue, Error>(StdLogicValue::Logic(false)),
            val == 'Z' ==> r == Ok::<StdLogicValue, Error>(StdLogicValue::Z),
            val == 'W' ==> r == Ok::<StdLogicValue, Error>(StdLogicValue::W),
            val == 'L' ==> r == Ok::<StdLogicValue, Error>(StdLogicValue::L),
            val == 'H' ==> r == Ok::<StdLogicValue, Error>(StdLogicValue::H),
            val == '-' ==> r == Ok::<StdLogicValue, Error>(StdLogicValue::DontCare),
            !(val == 'U' || val == 'X' || val == '1' || val == '0' || val == 'Z' || val == 'W'
                || val == 'L' || val == 'H' || val == '-') ==> r is Err && r->Err_0
                is InvalidArgument,
    {
        if val == 'U' {
            Ok(StdLogicValue::U)
        } else if val == 'X' {
            Ok(StdLogicValue::X)
        } else if val == '1' {
            Ok(StdLogicValue::Logic(true))
        } else if val == '0' {
            Ok(StdLogicValue::Logic(false))
        } else if val == 'Z' {
            Ok(StdLogicValue::Z)
        } else if val == 'W' {
            Ok(StdLogicValue::W)
        } else if val == 'L' {
            Ok(StdLogicValue::L)
        } else if val == 'H' {
            Ok(StdLogicValue::H)
        } else if val == '-' {
            Ok(StdLogicValue::DontCare)
        } else {
            Err(Error::InvalidArgument(String::from_str("unsupported standard logic value")))
        }
    }

    /// The one-letter form of this value.
    pub fn symbol(&self) -> (r: &'static str)
        ensures
            r@ == (match *self {
                StdLogicValue::U => "U"@,
                StdLogicValue::X => "X"@,
                StdLogicValue::Logic(b) => if b {
                    "1"@
                } else {
                    "0"@
                },
                StdLogicValue::Z => "Z"@,
                StdLogicValue::W => "W"@,
                StdLogicValue::L => "L"@,
                StdLogicValue::H => "H"@,
                StdLogicValue::DontCare => "-"@,
            }),
    {
        match self {
            StdLogicValue::U => "U",
            StdLogicValue::X => "X",
            StdLogicValue::Logic(b) => if *b {
                "1"
            } else {
                "0"
            },
            StdLogicValue::Z => "Z",
            StdLogicValue::W => "W",
            StdLogicValue::L => "L",
            StdLogicValue::H => "H",
            StdLogicValue::DontCare => "-",
        }
    }
}

/// A range constraint over a vector: ascending, descending, or one index.
#[derive(Debug, Clone, Copy, PartialEq, Eq, Structural)]
pub enum RangeConstraint {
    /// An ascending range from `start` to `end`.
    To { start: i32, end: i32 },
    /// A descending range from `start` down to `end`.
    Downto { start: i32, end: i32 },
    /// A single index.
    Index(i32),
}

impl RangeConstraint {
    /// An ascending range; the start must not exceed the end.
    pub fn to(start: i32, end: i32) -> (r: Result<RangeConstraint, Error>)
        ensures
            r is Ok <==> start <= end,
            r is Ok ==> r->Ok_0 == (RangeConstraint::To { start, end }),
            r is Err ==> r->Err_0 is InvalidArgument && r->Err_0->InvalidArgument_0@
                == "start cannot be greater than end in an ascending range"@,
    {
        if start > end {
            Err(
                Error::InvalidArgument(
                    String::from_str("start cannot be greater than end in an ascending range"),
                ),
            )
        } else {
            Ok(RangeConstraint::To { start, end })
        }
    }

    /// A descending range; the end must not exceed the start.
    pub fn downto(start: i32, end: i32) -> (r: Result<RangeConstraint, Error>)
        ensures
            r is Ok <==> end <= start,
            r is Ok ==> r->Ok_0 == (RangeConstraint::Downto { start, end }),
            r is Err ==> r->Err_0 is InvalidArgument && r->Err_0->InvalidArgument_0@
                == "end cannot be greater than start in a descending range"@,
    {
        if end > start {
            Err(
                Error::InvalidArgument(
                    String::from_str("end cannot be greater than start in a descending range"),
                ),
            )
        } else {
            Ok(RangeConstraint::Downto { start, end })
        }
    }

    /// The mathematical width of the constrained range.
    pub open spec fn width_spec(self) -> int {
        match self {
            RangeConstraint::To { start, end } => 1 + end - start,
            RangeConstraint::Downto { start, end } => 1 + start - end,
            RangeConstraint::Index(_) => 1,
        }
    }

    /// Whether the range is well formed and its width representable.
    pub open spec fn wf(self) -> bool {
        match self {
            RangeConstraint::To { start, end } => start <= end && end - start < u32::MAX,
            RangeConstraint::Downto { start, end } => end <= start && start - end < u32::MAX,
            RangeConstraint::Index(_) => true,
        }
    }

    /// The width of the range, as a signal width.
    pub fn width(&self) -> (r: Width)
        requires
            self.wf(),
        ensures
            r == (match self {
                RangeConstraint::Index(_) => Width::Scalar,
                _ => Width::Vector(self.width_spec() as u32),
            }),
    {
        match self {
            RangeConstraint::To { start, end } => {
                let w = (1 + (*end as i64) - (*start as i64)) as u32;
                Width::Vector(w)
            }
            RangeConstraint::Downto { start, end } => {
                let w = (1 + (*start as i64) - (*end as i64)) as u32;
                Width::Vector(w)
            }
            RangeConstraint::Index(_) => Width::Scalar,
        }
    }

    /// The width of the range, as a number of wires.
    pub fn width_u32(&self) -> (r: u32)
        requires
            self.wf(),
        ensures
            r == self.width_spec(),
    {
        match self.width() {
            Width::Scalar => 1,
            Width::Vector(w) => w,
        }
    }

    /// The greatest index within the range.
    pub fn high(&self) -> (r: i32)
        ensures
            r == (match self {
                RangeConstraint::To { start, end } => end,
                RangeConstraint::Downto { start, end } => start,
                RangeConstraint::Index(i) => i,
            }),
    {
        match self {
            RangeConstraint::To { start: _, end } => *end,
            RangeConstraint::Downto { start, end: _ } => *start,
            RangeConstraint::Index(index) => *index,
        }
    }

    /// The smallest index within the range.
    pub fn low(&self) -> (r: i32)
        ensures
            r == (match self {
                RangeConstraint::To { start, end } => start,
                RangeConstraint::Downto { start, end } => end,
                RangeConstraint::Index(i) => i,
            }),
    {
        match self {
            RangeConstraint::To { start, end: _ } => *start,
            RangeConstraint::Downto { start: _, end } => *end,
            RangeConstraint::Index(index) => *index,
        }
    }
}

/// A selection of part of a declared object: a range of a vector or a named
/// field of a record.
#[derive(Debug, PartialEq)]
pub enum FieldSelection {
    /// A range or index of a vector.
    Range(RangeConstraint),
    /// A named field of a record.
    Name(String),
}

impl FieldSelection {
    /// An ascending range selection.
    pub fn to(start: i32, end: i32) -> (r: Result<FieldSelection, Error>)
        ensures
            r is Ok <==> start <= end,
            r is Ok ==> r->Ok_0 == (FieldSelection::Range(RangeConstraint::To { start, end })),
            r is Err ==> r->Err_0 is InvalidArgument && r->Err_0->InvalidArgument_0@
                == "start cannot be greater than end in an ascending range"@,
    {
        match RangeConstraint::to(start, end) {
            Ok(rc) => Ok(FieldSelection::Range(rc)),
            Err(e) => Err(e),
        }
    }

    /// A descending range selection.
    pub fn downto(start: i32, end: i32) -> (r: Result<FieldSelection, Error>)
        ensures
            r is Ok <==> end <= start,
            r is Ok ==> r->Ok_0 == (FieldSelection::Range(RangeConstraint::Downto { start, end })),
            r is Err ==> r->Err_0 is InvalidArgument && r->Err_0->InvalidArgument_0@
                == "end cannot be greater than start in a descending range"@,
    {
        match RangeConstraint::downto(start, end) {
            Ok(rc) => Ok(FieldSelection::Range(rc)),
            Err(e) => Err(e),
        }
    }

    /// A single index selection.
    pub fn index(index: i32) -> (r: FieldSelection)
        ensures
            r == FieldSelection::Range(RangeConstraint::Index(index)),
    {
        FieldSelection::Range(RangeConstraint::Index(index))
    }

    /// A named field selection.
    pub fn name(name: &str) -> (r: FieldSelection)
        ensures
            r is Name && r->Name_0@ == name@,
    {
        FieldSelection::Name(String::from_str(name))
    }
}

} // verus!
