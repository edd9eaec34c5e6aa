//! Kernel geometry and device bookkeeping.

use pg_infer::compute::backend::{cpu_backend, cuda_device_name, default_backend, BackendKind};
use pg_infer::compute::buffers::{bucket_size, class_within, Allocation, BufferPool};
use pg_infer::compute::error::CudaError;
use pg_infer::compute::gemm::{plan_gemm, plan_launch, Q4K_BLOCK_SIZE, Q6K_BLOCK_SIZE};
use pg_infer::compute::heads::{head_offset, kv_head_of, rotary_pairs};
use pg_infer::compute::kquant::{q4k_factors, q4k_terms, q6k_factor, q6k_terms};
use pg_infer::compute::prefill::{
    infer_rows, matvec_route, plan_ffn, plan_layer, prefill_hidden, FfnStep, FfnType,
    MatvecRoute, PrefillLayer, PrefillStep, QuantFormat,
};

#[test]
fn the_best_backend_is_chosen() {
    assert_eq!(default_backend(true, true), BackendKind::Metal);
    assert_eq!(default_backend(false, true), BackendKind::Cuda);
    assert_eq!(default_backend(false, false), BackendKind::Cpu);
    assert_eq!(cpu_backend(), BackendKind::Cpu);
    assert_eq!(cuda_device_name(3), "CUDA device 3");
}

#[test]
fn size_classes_are_powers_of_two() {
    assert_eq!(bucket_size(0), 0);
    assert_eq!(bucket_size(1), 1);
    assert_eq!(bucket_size(2), 2);
    assert_eq!(bucket_size(3), 4);
    assert_eq!(bucket_size(1000), 1024);
    assert_eq!(bucket_size(1024), 1024);
}

#[test]
fn buffers_are_reused_by_class() {
    let mut pool = BufferPool::new();
    assert_eq!(pool.alloc_f32(1000), Allocation::Fresh(1024));
    pool.return_f32(1024, 7);
    pool.return_f32(1024, 8);
    pool.return_bytes(1024, 9);
    assert_eq!(pool.cached_count(), 3);
    assert_eq!(pool.alloc_f32(513), Allocation::Reuse(8));
    assert_eq!(pool.alloc_f32(1024), Allocation::Reuse(7));
    assert_eq!(pool.alloc_f32(1024), Allocation::Fresh(1024));
    assert_eq!(pool.alloc_bytes(5), Allocation::Fresh(8));
    assert_eq!(pool.alloc_bytes(1024), Allocation::Reuse(9));
    assert_eq!(pool.cached_count(), 0);
}

#[test]
fn no_request_gets_a_buffer_that_is_too_small() {
    let mut pool = BufferPool::new();
    pool.return_f32(5, 1);
    pool.return_f32(600, 2);
    pool.return_bytes(7, 3);
    assert_eq!(pool.alloc_f32(8), Allocation::Fresh(8));
    assert_eq!(pool.alloc_f32(5), Allocation::Fresh(8));
    assert_eq!(pool.alloc_f32(4), Allocation::Reuse(1));
    assert_eq!(pool.alloc_f32(600), Allocation::Fresh(1024));
    assert_eq!(pool.alloc_f32(512), Allocation::Reuse(2));
    assert_eq!(pool.alloc_bytes(7), Allocation::Fresh(8));
    assert_eq!(pool.alloc_bytes(3), Allocation::Reuse(3));
    pool.return_f32(0, 4);
    assert_eq!(pool.alloc_f32(1), Allocation::Fresh(1));
    assert_eq!(pool.alloc_f32(0), Allocation::Reuse(4));
}

#[test]
fn buffers_are_filed_under_the_class_they_are_large_enough_for() {
    assert_eq!(class_within(0), 0);
    assert_eq!(class_within(1), 1);
    assert_eq!(class_within(3), 2);
    assert_eq!(class_within(1024), 1024);
    assert_eq!(class_within(2047), 1024);
    assert_eq!(class_within(usize::MAX), usize::MAX / 2 + 1);
}

#[test]
fn products_are_planned_by_columns() {
    let p = plan_gemm(2, 3, 3, 5, false);
    assert_eq!((p.transpose_first, p.m, p.n, p.k), (false, 5, 2, 3));
    assert_eq!((p.lda, p.ldb, p.ldc), (5, 3, 5));
    let p = plan_gemm(2, 3, 5, 3, true);
    assert_eq!((p.transpose_first, p.m, p.n, p.k), (true, 5, 2, 3));
    assert_eq!((p.lda, p.ldb, p.ldc), (3, 3, 5));
}

#[test]
fn planned_products_are_products() {
    // Row by row: a is 2x3, b is 3x2.
    let a = [1, 2, 3, 4, 5, 6];
    let b = [7, 8, 9, 10, 11, 12];
    let p = plan_gemm(2, 3, 3, 2, false);
    let mut c = vec![0; 4];
    for j in 0..p.n {
        for i in 0..p.m {
            let mut sum = 0;
            for k in 0..p.k {
                sum += b[(i + k * p.lda) as usize] * a[(k + j * p.ldb) as usize];
            }
            c[(i + j * p.ldc) as usize] = sum;
        }
    }
    assert_eq!(c, vec![58, 64, 139, 154]);
}

#[test]
fn launches_take_a_block_per_row() {
    let p = plan_launch(10, 512, Q4K_BLOCK_SIZE);
    assert_eq!((p.grid_x, p.block_x, p.shared_bytes), (10, 256, 128));
    assert_eq!((p.num_rows, p.hidden, p.superblocks, p.bytes_per_row), (10, 512, 2, 288));
    assert_eq!(plan_launch(1, 256, Q6K_BLOCK_SIZE).bytes_per_row, 210);
}

#[test]
fn q4k_blocks_are_unpacked() {
    let mut block = vec![0u8; 144];
    block[0] = 0x00;
    block[1] = 0x3C;
    block[2] = 0x00;
    block[3] = 0x40;
    block[4] = 0b11_000101; // scale 0 = 5, high bits of scale 4
    block[8] = 0b10_000111; // min 0 = 7, high bits of min 4
    block[12] = 0x9A; // low bits: scale 4 = A, min 4 = 9
    block[16] = 0x21; // value 0 = 1, value 32 = 2
    let terms = q4k_terms(&block);
    assert_eq!(q4k_factors(&block), (0x3C00, 0x4000));
    assert_eq!(terms.len(), 256);
    assert_eq!((terms[0].scale, terms[0].min, terms[0].quant), (5, 7, 1));
    assert_eq!(terms[32].quant, 2);
    assert_eq!((terms[128].scale, terms[128].min), (0x3A, 0x29));
}

#[test]
fn q6k_blocks_are_unpacked() {
    let mut block = vec![0u8; 210];
    block[0] = 0x5F; // values 0 and 1: low bits F and 5
    block[128] = 0b00_00_01_11; // high bits 3 and 1
    block[192] = 0xFE;
    block[208] = 0x34;
    block[209] = 0x12;
    let terms = q6k_terms(&block);
    assert_eq!(q6k_factor(&block), 0x1234);
    assert_eq!((terms[0].scale, terms[0].value), (-2, 31));
    assert_eq!(terms[1].value, 5 + 16 - 32);
    assert_eq!(terms[2].value, -32);
    assert_eq!(terms[16].scale, 0);
}

#[test]
fn rows_are_counted_by_format() {
    assert_eq!(infer_rows(288, QuantFormat::Q4_K, 256), 2);
    assert_eq!(infer_rows(288, QuantFormat::Q4_KF, 256), 2);
    assert_eq!(infer_rows(420, QuantFormat::Q6_K, 256), 2);
    assert_eq!(infer_rows(36, QuantFormat::Q4_0, 32), 2);
    assert_eq!(infer_rows(64, QuantFormat::Q8_0, 32), 2);
    assert_eq!(infer_rows(288, QuantFormat::Q4_K, 255), 0);
    assert_eq!(matvec_route(QuantFormat::Q4_KF), MatvecRoute::Q4kKernel);
    assert_eq!(matvec_route(QuantFormat::Q6_K), MatvecRoute::Q6kKernel);
    assert_eq!(matvec_route(QuantFormat::Q8_0), MatvecRoute::CpuFallback);
}

#[test]
fn layers_take_their_steps() {
    let mut l = PrefillLayer {
        cached: false,
        has_post_norms: false,
        has_q_norm: false,
        has_k_norm: false,
        has_v_norm: false,
        layer_scalar: 1.0f32.to_bits(),
        has_pre_ffn_norm: true,
        has_post_ffn_norm: true,
    };
    assert_eq!(
        plan_layer(l),
        vec![
            PrefillStep::InputNorm,
            PrefillStep::ProjectQkv,
            PrefillStep::Rope,
            PrefillStep::Attention,
            PrefillStep::ProjectOutput,
            PrefillStep::AddAttention,
            PrefillStep::FfnNormShared,
            PrefillStep::Ffn,
            PrefillStep::AddFfn,
        ]
    );
    l.has_post_norms = true;
    l.has_q_norm = true;
    l.has_k_norm = true;
    l.has_v_norm = true;
    l.layer_scalar = 0.5f32.to_bits();
    assert_eq!(
        plan_layer(l),
        vec![
            PrefillStep::InputNorm,
            PrefillStep::ProjectQkv,
            PrefillStep::QueryNorm,
            PrefillStep::KeyNorm,
            PrefillStep::ValueNorm,
            PrefillStep::Rope,
            PrefillStep::Attention,
            PrefillStep::ProjectOutput,
            PrefillStep::ScaleOutput,
            PrefillStep::AddNormedAttention,
            PrefillStep::FfnNormOwn,
            PrefillStep::Ffn,
            PrefillStep::AddNormedFfn,
        ]
    );
    l.layer_scalar = (-0.0f32).to_bits();
    assert!(!plan_layer(l).contains(&PrefillStep::ScaleOutput));
    l.cached = true;
    assert_eq!(plan_layer(l), vec![PrefillStep::UseCached]);
}

#[test]
fn blocks_take_their_steps() {
    assert_eq!(
        plan_ffn(FfnType::Gated, true, true),
        vec![FfnStep::ProjectGate, FfnStep::ProjectUp, FfnStep::ActivateGate, FfnStep::ProjectDown]
    );
    assert_eq!(
        plan_ffn(FfnType::Standard, true, true),
        vec![
            FfnStep::ProjectUp,
            FfnStep::AddUpBias,
            FfnStep::ActivateUp,
            FfnStep::ProjectDown,
            FfnStep::AddDownBias,
        ]
    );
    assert_eq!(
        plan_ffn(FfnType::Standard, false, false),
        vec![FfnStep::ProjectUp, FfnStep::ActivateUp, FfnStep::ProjectDown]
    );
}

#[test]
fn heads_are_shared_evenly() {
    let heads: Vec<usize> = (0..8).map(|q| kv_head_of(q, 8, 2)).collect();
    assert_eq!(heads, vec![0, 0, 0, 0, 1, 1, 1, 1]);
    assert_eq!(kv_head_of(2, 3, 0), 0);
    assert_eq!(kv_head_of(1, 2, 5), 1);
    assert_eq!(rotary_pairs(0, 64), 32);
    assert_eq!(rotary_pairs(16, 64), 8);
    assert_eq!(prefill_hidden(2, 3, 12), Some(4));
    assert_eq!(prefill_hidden(0, 3, 12), None);
    assert_eq!(prefill_hidden(2, 0, 0), None);
}

#[test]
fn device_errors_have_texts() {
    let e = || "x".to_string();
    assert_eq!(CudaError::DeviceInit(e()).message(), "CUDA device init: x");
    assert_eq!(CudaError::BlasInit(e()).message(), "cuBLAS init: x");
    assert_eq!(CudaError::StreamCreate(e()).message(), "CUDA stream: x");
    assert_eq!(CudaError::KernelLaunch(e()).message(), "kernel launch: x");
    assert_eq!(CudaError::MemAlloc(e()).message(), "GPU alloc: x");
    assert_eq!(CudaError::Transfer(e()).message(), "H2D/D2H transfer: x");
}

#[test]
fn heads_have_their_places() {
    let mut seen = vec![0; 3 * 2 * 4];
    for p in 0..3 {
        for h in 0..2 {
            let at = head_offset(p, h, 2, 4);
            for d in 0..4 {
                seen[at + d] += 1;
            }
        }
    }
    assert!(seen.iter().all(|n| *n == 1));
    assert_eq!(head_offset(2, 1, 2, 4), 20);
    assert_eq!(head_offset(2, 1, 2, 0), 0);
}
