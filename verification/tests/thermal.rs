//! End-to-end thermal scenarios: the stepping protocol is driven exactly as
//! an application would drive it, with the dense products computed here and
//! accumulated into the verified engine's history windows.

use temperature::Analysis;

/// `c += a * b`, all dense and column-major: `a` is `m x k`, `b` is
/// `k x n`, `c` is `m x n` with `n = b.len() / k`.
fn mul_acc(a: &[f64], b: &[f64], c: &mut [f64], m: usize, k: usize) {
    let n = b.len() / k;
    for j in 0..n {
        for i in 0..m {
            let mut sum = 0.0;
            for t in 0..k {
                sum += a[t * m + i] * b[j * k + t];
            }
            c[j * m + i] += sum;
        }
    }
}

/// The two-node network whose symmetrized system matrix is
/// `[[-2, 1], [1, -2]]`: unit capacitances, conductance `[[2, -1], [-1, 2]]`,
/// eigenvalues `-1` and `-3` with eigenvectors `(1, 1)/sqrt(2)` and
/// `(1, -1)/sqrt(2)`.
fn two_node(cores: usize, dt: f64) -> Analysis<f64> {
    let nodes = 2;
    let h = 0.5f64.sqrt();
    let u = vec![h, h, h, -h];
    let l = vec![-1.0, -3.0];
    let d = vec![1.0, 1.0];

    // e = u . diag(exp(dt l)) . u^t
    let tau = [(dt * l[0]).exp(), (dt * l[1]).exp()];
    let mut scratch = vec![0.0; nodes * nodes];
    for i in 0..nodes {
        for j in 0..nodes {
            scratch[j * nodes + i] = tau[i] * u[i * nodes + j];
        }
    }
    let mut e = vec![0.0; nodes * nodes];
    mul_acc(&u, &scratch, &mut e, nodes, nodes);

    // f = u . diag((exp(dt l) - 1) / l) . u^t . d, first `cores` columns
    let g = [(tau[0] - 1.0) / l[0], (tau[1] - 1.0) / l[1]];
    let mut scratch = vec![0.0; nodes * cores];
    for i in 0..nodes {
        for j in 0..cores {
            scratch[j * nodes + i] = g[i] * u[i * nodes + j] * d[j];
        }
    }
    let mut f = vec![0.0; nodes * cores];
    mul_acc(&u, &scratch, &mut f, nodes, nodes);

    Analysis::new(cores, nodes, u, l, d, e, f, 0.0)
}

/// The single-node network with unit capacitance and conductance `g`:
/// one eigenvalue `-g`.
fn one_node(g: f64, dt: f64) -> Analysis<f64> {
    let tau = (dt * -g).exp();
    Analysis::new(
        1,
        1,
        vec![1.0],
        vec![-g],
        vec![1.0],
        vec![tau],
        vec![(tau - 1.0) / -g],
        0.0,
    )
}

/// One stepping call, driven as an application drives it: lay out the
/// window, accumulate the forcing products, accumulate the propagation
/// products block by block, and read the temperatures back out.
fn drive(sim: &mut Analysis<f64>, ambience: f64, p: &[f64], q: &mut [f64]) {
    let cores = sim.core_count();
    let nodes = sim.node_count();
    assert!(cores >= 1 && p.len() % cores == 0 && q.len() == p.len());
    let steps = p.len() / cores;
    assert!(steps >= 1);

    sim.step(steps, 0.0);

    let mut tail = sim.tail();
    mul_acc(sim.forcing(), p, &mut tail, nodes, cores);
    sim.store_tail(&tail);

    for i in 0..steps {
        let from = sim.block(i);
        let mut into = sim.block(i + 1);
        mul_acc(sim.propagation(), &from, &mut into, nodes, nodes);
        sim.store_block(i + 1, &into);
    }

    let d = sim.scaling().clone();
    for j in 0..steps {
        let block = sim.block(j + 1);
        for i in 0..cores {
            q[j * cores + i] = d[i] * block[i] + ambience;
        }
    }
}

fn close(a: f64, b: f64) -> bool {
    (a - b).abs() <= 1e-9 * a.abs().max(b.abs()).max(1.0)
}

#[test]
fn stability_of_a_physical_network() {
    let dt = 0.25;
    let sim = two_node(2, dt);
    for &lambda in sim.eigenvalues() {
        assert!(lambda <= 0.0);
        let tau = (dt * lambda).exp();
        assert!(0.0 < tau && tau <= 1.0);
    }
}

#[test]
fn zero_power_stays_at_ambient() {
    let ambience = 318.0;
    let mut sim = two_node(2, 0.5);
    for steps in [1usize, 3, 7] {
        let p = vec![0.0; 2 * steps];
        let mut q = vec![-1.0; 2 * steps];
        drive(&mut sim, ambience, &p, &mut q);
        for &t in &q {
            assert_eq!(t, ambience);
        }
    }
}

#[test]
fn batched_equals_repeated_single_steps() {
    let ambience = 300.0;
    let trace = [3.0, 1.0, 4.0, 1.0, 5.0, 9.0, 2.0, 6.0, 5.0, 3.0];
    let k = trace.len() / 2;

    let mut batched = two_node(2, 0.1);
    let mut q_batched = vec![0.0; trace.len()];
    drive(&mut batched, ambience, &trace, &mut q_batched);

    let mut single = two_node(2, 0.1);
    for j in 0..k {
        let mut q = vec![0.0; 2];
        drive(&mut single, ambience, &trace[2 * j..2 * (j + 1)], &mut q);
        assert!(close(q[0], q_batched[2 * j]));
        assert!(close(q[1], q_batched[2 * j + 1]));
    }
}

#[test]
fn superposition_of_power_traces() {
    let ambience = 290.0;
    let p1 = [2.0, 0.5, 1.5, 3.0, 0.0, 1.0];
    let p2 = [1.0, 1.0, 0.0, 2.0, 4.0, 0.5];
    let sum: Vec<f64> = p1.iter().zip(p2.iter()).map(|(a, b)| a + b).collect();

    let mut q1 = vec![0.0; 6];
    drive(&mut two_node(2, 0.2), ambience, &p1, &mut q1);
    let mut q2 = vec![0.0; 6];
    drive(&mut two_node(2, 0.2), ambience, &p2, &mut q2);
    let mut q = vec![0.0; 6];
    drive(&mut two_node(2, 0.2), ambience, &sum, &mut q);

    for i in 0..6 {
        assert!(close(q[i], q1[i] + q2[i] - ambience));
    }
}

#[test]
fn constant_power_converges_monotonically() {
    let ambience = 300.0;
    let g = 2.0;
    let dt = 0.1;
    let power = 10.0;
    let mut sim = one_node(g, dt);

    let e = sim.propagation()[0];
    let f = sim.forcing()[0];
    let steady = f * power / (1.0 - e) + ambience;

    let mut previous = ambience;
    let mut last = ambience;
    for _ in 0..200 {
        let mut q = [0.0];
        drive(&mut sim, ambience, &[power], &mut q);
        assert!(q[0] > previous - 1e-12);
        assert!(q[0] < steady + 1e-9);
        previous = q[0];
        last = q[0];
    }
    assert!(close(last, steady));
}

#[test]
fn chunking_of_the_trace_is_immaterial() {
    let ambience = 305.0;
    let trace = [1.0, 2.0, 3.0, 4.0, 5.0, 6.0, 7.0, 8.0, 9.0, 10.0, 11.0, 12.0];

    let mut whole = two_node(2, 0.3);
    let mut q_whole = vec![0.0; trace.len()];
    drive(&mut whole, ambience, &trace, &mut q_whole);

    // The same trace, delivered in windows of different sizes: the growth
    // of the history buffer (reuse of spare capacity after the wide first
    // window, fresh allocation for the widest) must not show in the output.
    let mut chunked = two_node(2, 0.3);
    let mut q_chunked = Vec::new();
    for chunk in [&trace[0..6], &trace[6..8], &trace[8..10], &trace[10..12]] {
        let mut q = vec![0.0; chunk.len()];
        drive(&mut chunked, ambience, chunk, &mut q);
        q_chunked.extend_from_slice(&q);
    }

    for i in 0..trace.len() {
        assert!(close(q_chunked[i], q_whole[i]));
    }
}
