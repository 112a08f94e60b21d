//! The computation graph and its backward pass: nodes name their inputs
//! by index among the earlier nodes, so the graph is acyclic by
//! construction, and a depth-first walk yields a topological order.

#![verifier::loop_isolation(false)]

use vstd::prelude::*;
use crate::ai::tensor::TensorId;

verus! {

/// The operations a graph node can record.
#[derive(Clone, Copy, PartialEq, Eq, Structural, Debug)]
pub enum Operation {
    Add,
    Mul,
    MatMul,
    Transpose,
    ReLU,
    Sigmoid,
    Tanh,
    SoftMax,
    Sum,
    Mean,
}

/// One recorded step: its position, its operation, the positions of its
/// operands, and the tensor it produced.
pub struct Node {
    pub id: usize,
    pub op: Operation,
    pub inputs: Vec<usize>,
    pub output: TensorId,
}

/// A recorded ordering respects the data flow: every node's operands
/// appear before the node itself.
pub open spec fn topo_ok(nodes: Seq<Node>, order: Seq<usize>) -> bool {
    forall|p: int|
        0 <= p < order.len() ==> (forall|j: int|
            0 <= j < (#[trigger] nodes[order[p] as int].inputs@).len() ==> order.take(p).contains(
                nodes[order[p] as int].inputs@[j],
            ))
}

/// The computation graph: the recorded nodes and the tensor-identity
/// counter.
pub struct ComputationGraph {
    pub nodes: Vec<Node>,
    pub next_tensor_id: TensorId,
}

impl ComputationGraph {
    /// Nodes know their own position and only name earlier nodes as
    /// operands, so the graph is acyclic.
    pub open spec fn wf(self) -> bool {
        forall|n: int|
            0 <= n < self.nodes@.len() ==> (#[trigger] self.nodes@[n]).id == n && (forall|j: int|
                0 <= j < self.nodes@[n].inputs@.len() ==> #[trigger] self.nodes@[n].inputs@[j] < n)
    }

    /// An empty graph.
    pub fn new() -> (r: Self)
        ensures
            r.wf(),
            r.nodes@.len() == 0,
            r.next_tensor_id == 0,
    {
        ComputationGraph { nodes: Vec::new(), next_tensor_id: 0 }
    }

    /// Record one step over the given earlier nodes; a fresh tensor
    /// identity is issued for its result, and the node's position is
    /// returned.
    pub fn add_node(&mut self, op: Operation, inputs: Vec<usize>) -> (r: usize)
        requires
            old(self).wf(),
            forall|j: int| 0 <= j < inputs@.len() ==> #[trigger] inputs@[j] < old(self).nodes@.len(),
            old(self).next_tensor_id < TensorId::MAX,
        ensures
            final(self).wf(),
            r == old(self).nodes@.len(),
            final(self).nodes@.len() == old(self).nodes@.len() + 1,
            final(self).nodes@[r as int].op == op,
            final(self).nodes@[r as int].inputs@ == inputs@,
            final(self).nodes@[r as int].output == old(self).next_tensor_id + 1,
            forall|k: int| 0 <= k < r ==> final(self).nodes@[k] == old(self).nodes@[k],
            final(self).next_tensor_id == old(self).next_tensor_id + 1,
    {
        let id = self.nodes.len();
        self.next_tensor_id = self.next_tensor_id + 1;
        let output = self.next_tensor_id;
        self.nodes.push(Node { id, op, inputs, output });
        id
    }

    /// A topological ordering of the whole graph: every node index occurs,
    /// none twice, and each node comes after all of its operands.
    pub fn topological_sort(&self) -> (r: Vec<usize>)
        requires
            self.wf(),
        ensures
            forall|k: int| 0 <= k < self.nodes@.len() ==> #[trigger] r@.contains(k as usize),
            forall|p: int| 0 <= p < r@.len() ==> #[trigger] r@[p] < self.nodes@.len(),
            forall|p: int, q: int| 0 <= p < q < r@.len() ==> r@[p] != r@[q],
            topo_ok(self.nodes@, r@),
    {
        let n = self.nodes.len();
        proof {
            assert(self.nodes@.len() == n);
        }
        let mut visited: Vec<bool> = Vec::new();
        let mut k0: usize = 0;
        while k0 < n
            invariant
                k0 <= n,
                visited@.len() == k0,
                forall|j: int| 0 <= j < k0 ==> !(#[trigger] visited@[j]),
            decreases n - k0,
        {
            visited.push(false);
            k0 = k0 + 1;
        }
        let mut result: Vec<usize> = Vec::new();
        let mut i: usize = 0;
        while i < n
            invariant
                i <= n,
                n == self.nodes@.len(),
                visited@.len() == n,
                forall|k: int|
                    0 <= k < n ==> ((#[trigger] visited@[k]) <==> result@.contains(k as usize)),
                forall|k: int| 0 <= k < i ==> #[trigger] visited@[k],
                forall|p: int| 0 <= p < result@.len() ==> #[trigger] result@[p] < n,
                forall|p: int, q: int| 0 <= p < q < result@.len() ==> result@[p] != result@[q],
                topo_ok(self.nodes@, result@),
            decreases n - i,
        {
            if !visited[i] {
                let ghost vpre = visited@;
                self.dfs(i, &mut visited, &mut result, Ghost(Set::empty()));
                proof {
                    assert forall|k: int| 0 <= k < i + 1 implies #[trigger] visited@[k] by {
                        if k < i {
                            assert(vpre[k]);
                        }
                    }
                }
            }
            i = i + 1;
        }
        proof {
            assert forall|k: int| 0 <= k < self.nodes@.len() implies #[trigger] result@.contains(
                k as usize,
            ) by {
                assert(visited@[k]);
            }
        }
        result
    }

    /// The depth-first walk under the ordering: operands first, the node
    /// itself last. The ghost `stack` holds the indexes currently being
    /// walked above this one; every one of them is larger than `node`, so
    /// the walk cannot meet them below.
    fn dfs(
        &self,
        node: usize,
        visited: &mut Vec<bool>,
        result: &mut Vec<usize>,
        Ghost(stack): Ghost<Set<usize>>,
    )
        requires
            self.wf(),
            node < self.nodes@.len(),
            old(visited)@.len() == self.nodes@.len(),
            !old(visited)@[node as int],
            !stack.contains(node),
            forall|s: usize| stack.contains(s) ==> s > node,
            forall|k: int|
                0 <= k < self.nodes@.len() ==> ((#[trigger] old(visited)@[k]) <==> (old(
                    result,
                )@.contains(k as usize) || stack.contains(k as usize))),
            forall|p: int| 0 <= p < old(result)@.len() ==> #[trigger] old(result)@[p]
                < self.nodes@.len(),
            forall|p: int, q: int|
                0 <= p < q < old(result)@.len() ==> old(result)@[p] != old(result)@[q],
            topo_ok(self.nodes@, old(result)@),
        ensures
            final(visited)@.len() == self.nodes@.len(),
            forall|k: int|
                0 <= k < self.nodes@.len() ==> ((#[trigger] old(visited)@[k])
                    ==> final(visited)@[k]),
            final(visited)@[node as int],
            old(result)@.len() <= final(result)@.len(),
            forall|p: int|
                0 <= p < old(result)@.len() ==> #[trigger] final(result)@[p] == old(result)@[p],
            forall|k: int|
                0 <= k < self.nodes@.len() ==> ((#[trigger] final(visited)@[k])
                    <==> (final(result)@.contains(k as usize) || stack.contains(k as usize))),
            final(result)@.contains(node),
            forall|p: int|
                old(result)@.len() <= p < final(result)@.len() ==> #[trigger] final(result)@[p]
                    <= node,
            forall|p: int| 0 <= p < final(result)@.len() ==> #[trigger] final(result)@[p]
                < self.nodes@.len(),
            forall|p: int, q: int|
                0 <= p < q < final(result)@.len() ==> final(result)@[p] != final(result)@[q],
            topo_ok(self.nodes@, final(result)@),
        decreases node,
    {
        proof {
            assert(self.nodes@.len() == self.nodes.len());
        }
        visited[node] = true;
        let ghost inner = stack.insert(node);
        proof {
            assert forall|s: usize| #[trigger] inner.contains(s) == (s == node || stack.contains(
                s,
            )) by {
                assert(inner.contains(s) == stack.insert(node).contains(s));
            }
            assert forall|k: int| 0 <= k < self.nodes@.len() implies ((#[trigger] visited@[k]) <==> (
            result@.contains(k as usize) || inner.contains(k as usize))) by {
                assert(result@ == old(result)@);
                assert(inner.contains(k as usize) == (k as usize == node || stack.contains(
                    k as usize,
                )));
                if k == node {
                    assert(visited@[k]);
                    assert(inner.contains(node));
                } else {
                    assert(k as usize != node);
                    assert(visited@[k] == old(visited)@[k]);
                    assert(old(visited)@[k] == (old(result)@.contains(k as usize)
                        || stack.contains(k as usize)));
                }
            }
        }
        let num_inputs = self.nodes[node].inputs.len();
        let mut j: usize = 0;
        while j < num_inputs
            invariant
                num_inputs == self.nodes@[node as int].inputs@.len(),
                j <= num_inputs,
                visited@.len() == self.nodes@.len(),
                forall|k: int|
                    0 <= k < self.nodes@.len() ==> ((#[trigger] old(visited)@[k]) ==> visited@[k]),
                visited@[node as int],
                old(result)@.len() <= result@.len(),
                forall|p: int| 0 <= p < old(result)@.len() ==> #[trigger] result@[p] == old(
                    result,
                )@[p],
                forall|k: int|
                    0 <= k < self.nodes@.len() ==> ((#[trigger] visited@[k]) <==> (
                    result@.contains(k as usize) || inner.contains(k as usize))),
                forall|jj: int|
                    0 <= jj < j ==> result@.contains(
                        #[trigger] self.nodes@[node as int].inputs@[jj],
                    ),
                forall|p: int|
                    old(result)@.len() <= p < result@.len() ==> #[trigger] result@[p] < node,
                forall|p: int| 0 <= p < result@.len() ==> #[trigger] result@[p]
                    < self.nodes@.len(),
                forall|p: int, q: int| 0 <= p < q < result@.len() ==> result@[p] != result@[q],
                topo_ok(self.nodes@, result@),
            decreases num_inputs - j,
        {
            let input = self.nodes[node].inputs[j];
            proof {
                assert(self.nodes@[node as int].inputs@[j as int] < node);
            }
            if !visited[input] {
                let ghost mid_result = result@;
                self.dfs(input, visited, result, Ghost(inner));
                proof {
                    assert forall|jj: int| 0 <= jj < j implies result@.contains(
                        #[trigger] self.nodes@[node as int].inputs@[jj],
                    ) by {
                        let v = self.nodes@[node as int].inputs@[jj];
                        assert(mid_result.contains(v));
                        let idx = choose|idx: int| 0 <= idx < mid_result.len() && mid_result[idx] == v;
                        assert(result@[idx] == v);
                    }
                }
            } else {
                proof {
                    assert(result@.contains(input) || inner.contains(input));
                    assert(input < node);
                    if inner.contains(input) {
                        assert(inner.contains(input) == (input == node || stack.contains(input)));
                        assert(stack.contains(input));
                        assert(input > node);
                    }
                    assert(result@.contains(input));
                }
            }
            j = j + 1;
        }
        proof {
            assert(!result@.contains(node)) by {
                if result@.contains(node) {
                    let idx = choose|idx: int| 0 <= idx < result@.len() && result@[idx] == node;
                    if idx < old(result)@.len() {
                        assert(old(result)@[idx] == node);
                        assert(old(result)@.contains(node));
                        assert(old(visited)@[node as int]);
                    } else {
                        assert(result@[idx] < node);
                    }
                }
            }
        }
        let ghost before_push = result@;
        result.push(node);
        proof {
            assert(result@ == before_push.push(node));
            assert(result@.take(before_push.len() as int) =~= before_push);
            assert forall|k: int| 0 <= k < self.nodes@.len() implies ((#[trigger] visited@[k]) <==> (
            result@.contains(k as usize) || stack.contains(k as usize))) by {
                if k == node {
                    assert(result@[before_push.len() as int] == node);
                    assert(result@.contains(node));
                } else {
                    if before_push.contains(k as usize) {
                        let idx = choose|idx: int|
                            0 <= idx < before_push.len() && before_push[idx] == k as usize;
                        assert(result@[idx] == k as usize);
                    }
                    if result@.contains(k as usize) {
                        let idx = choose|idx: int|
                            0 <= idx < result@.len() && result@[idx] == k as usize;
                        assert(result@.len() == before_push.len() + 1);
                        assert(result@[before_push.len() as int] == node);
                        assert(idx < before_push.len());
                        assert(before_push.contains(k as usize));
                    }
                    if inner.contains(k as usize) {
                        assert(inner.contains(k as usize) == (k as usize == node
                            || stack.contains(k as usize)));
                        assert(stack.contains(k as usize));
                    }
                }
            }
            assert forall|p: int| 0 <= p < result@.len() implies (forall|jj: int|
                0 <= jj < (#[trigger] self.nodes@[result@[p] as int].inputs@).len()
                    ==> result@.take(p).contains(self.nodes@[result@[p] as int].inputs@[jj])) by {
                if p < before_push.len() {
                    assert(result@.take(p) =~= before_push.take(p));
                    assert(result@[p] == before_push[p]);
                } else {
                    assert(result@[p] == node);
                    assert(result@.take(p) =~= before_push);
                }
            }
        }
    }

    /// The backward pass: visit the nodes in reverse topological order and
    /// propagate gradient entries to the operands of each addition, the
    /// output's own tensor seeded first. The numeric gradient values live
    /// with the floating-point compute outside the library; the
    /// bookkeeping of which tensors receive a gradient is decided here.
    pub fn backward(&self, output_id: usize)
        requires
            self.wf(),
            output_id < self.nodes@.len(),
    {
        let ordered_nodes = self.topological_sort();
        let mut gradients: Vec<TensorId> = Vec::new();
        gradients.push(self.nodes[output_id].output);
        let mut p: usize = ordered_nodes.len();
        while p > 0
            invariant
                p <= ordered_nodes@.len(),
                forall|q: int| 0 <= q < ordered_nodes@.len() ==> #[trigger] ordered_nodes@[q]
                    < self.nodes@.len(),
            decreases p,
        {
            p = p - 1;
            let node_id = ordered_nodes[p];
            let node = &self.nodes[node_id];
            match node.op {
                Operation::Add => {
                    let mut j: usize = 0;
                    while j < node.inputs.len()
                        invariant
                            node == self.nodes@[node_id as int],
                            node_id < self.nodes@.len(),
                            j <= node.inputs@.len(),
                        decreases node.inputs@.len() - j,
                    {
                        let input_id = node.inputs[j];
                        proof {
                            assert(self.nodes@[node_id as int].inputs@[j as int] < node_id);
                        }
                        let input_tensor = self.nodes[input_id].output;
                        if !contains_id(&gradients, input_tensor) {
                            gradients.push(input_tensor);
                        }
                        j = j + 1;
                    }
                },
                _ => {},
            }
        }
    }
}

/// Whether the list already holds the given tensor identity.
fn contains_id(list: &Vec<TensorId>, x: TensorId) -> (r: bool)
    ensures
        r == list@.contains(x),
{
    let mut k: usize = 0;
    while k < list.len()
        invariant
            k <= list@.len(),
            forall|j: int| 0 <= j < k ==> list@[j] != x,
        decreases list@.len() - k,
    {
        if list[k] == x {
            return true;
        }
        k = k + 1;
    }
    proof {
        assert forall|j: int| 0 <= j < list@.len() implies list@[j] != x by {}
        if list@.contains(x) {
            let idx = choose|idx: int| 0 <= idx < list@.len() && list@[idx] == x;
        }
    }
    false
}

} // verus!
