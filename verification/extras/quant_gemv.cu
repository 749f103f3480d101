// Products of one vector by quantized rows, one block of threads for each row.
#include <cuda_fp16.h>
#include <stdint.h>

__device__ __forceinline__ float load_half_le(const unsigned char* p) {
    unsigned short bits = (unsigned short)p[0] | ((unsigned short)p[1] << 8);
    return __half2float(__ushort_as_half(bits));
}

__device__ __forceinline__ void get_scale_min_k4(int j, const unsigned char* q, int* d, int* m) {
    if (j < 4) {
        *d = q[j] & 63;
        *m = q[j + 4] & 63;
    } else {
        *d = (q[j + 4] & 0xF) | ((q[j - 4] >> 6) << 4);
        *m = (q[j + 4] >> 4) | ((q[j] >> 6) << 4);
    }
}

__device__ __forceinline__ float deq_q4k(const unsigned char* row, int col) {
    const int block = col >> 8;
    const int n = col & 255;
    const unsigned char* b = row + block * 144;
    const float d = load_half_le(b + 0);
    const float dmin = load_half_le(b + 2);
    const unsigned char* scales = b + 4;
    const unsigned char* qs = b + 16;
    const int group = n >> 6;
    const int in64 = n & 63;
    const int is = group * 2 + (in64 >= 32);
    int sc, m;
    get_scale_min_k4(is, scales, &sc, &m);
    const unsigned char qb = qs[group * 32 + (in64 & 31)];
    const int q = (in64 < 32) ? (qb & 0xF) : (qb >> 4);
    return d * (float)sc * (float)q - dmin * (float)m;
}

__device__ __forceinline__ float deq_q5k(const unsigned char* row, int col) {
    const int block = col >> 8;
    const int n = col & 255;
    const unsigned char* b = row + block * 176;
    const float d = load_half_le(b + 0);
    const float dmin = load_half_le(b + 2);
    const unsigned char* scales = b + 4;
    const unsigned char* qh = b + 16;
    const unsigned char* ql = b + 48;
    const int group = n >> 6;
    const int in64 = n & 63;
    const int is = group * 2 + (in64 >= 32);
    int sc, m;
    get_scale_min_k4(is, scales, &sc, &m);
    const int idx = in64 & 31;
    const unsigned char qb = ql[group * 32 + idx];
    const int low = in64 < 32;
    const int qbase = low ? (qb & 0xF) : (qb >> 4);
    const unsigned char mask = low ? (unsigned char)(1u << (2 * group)) : (unsigned char)(2u << (2 * group));
    const int q = qbase + ((qh[idx] & mask) ? 16 : 0);
    return d * (float)sc * (float)q - dmin * (float)m;
}

__device__ __forceinline__ float deq_q6k(const unsigned char* row, int col) {
    const int block = col >> 8;
    const int n = col & 255;
    const unsigned char* b = row + block * 210;
    const unsigned char* ql_all = b + 0;
    const unsigned char* qh_all = b + 128;
    const signed char* sc_all = (const signed char*)(b + 192);
    const float d = load_half_le(b + 208);
    const int idx = n >> 7;
    const int within = n & 127;
    const unsigned char* ql = ql_all + 64 * idx;
    const unsigned char* qh = qh_all + 32 * idx;
    const signed char* sc = sc_all + 8 * idx;
    int l, is, q;
    if (within < 32) {
        l = within;
        is = l / 16;
        q = ((ql[l] & 0xF) | ((qh[l] & 3) << 4)) - 32;
    } else if (within < 64) {
        l = within - 32;
        is = l / 16 + 2;
        q = ((ql[l + 32] & 0xF) | (((qh[l] >> 2) & 3) << 4)) - 32;
    } else if (within < 96) {
        l = within - 64;
        is = l / 16 + 4;
        q = ((ql[l] >> 4) | (((qh[l] >> 4) & 3) << 4)) - 32;
    } else {
        l = within - 96;
        is = l / 16 + 6;
        q = ((ql[l + 32] >> 4) | (((qh[l] >> 6) & 3) << 4)) - 32;
    }
    return d * (float)sc[is] * (float)q;
}

__device__ __forceinline__ float deq_q8_0(const unsigned char* row, int col) {
    const int block = col >> 5;
    const int n = col & 31;
    const unsigned char* b = row + block * 34;
    const float d = load_half_le(b + 0);
    const signed char* qs = (const signed char*)(b + 2);
    return d * (float)qs[n];
}

#define DEFINE_GEMV(NAME, DEQ) \
extern "C" __global__ void NAME(const unsigned char* __restrict__ w, const __half* __restrict__ x, __half* __restrict__ y, int rows, int k, int row_stride_bytes) { \
    const int row = blockIdx.x; \
    const int tid = threadIdx.x; \
    extern __shared__ float smem[]; \
    if (row >= rows) return; \
    const unsigned char* rowp = w + (size_t)row * (size_t)row_stride_bytes; \
    float acc = 0.0f; \
    for (int col = tid; col < k; col += blockDim.x) { \
        acc += DEQ(rowp, col) * __half2float(x[col]); \
    } \
    smem[tid] = acc; \
    __syncthreads(); \
    for (int stride = blockDim.x >> 1; stride > 0; stride >>= 1) { \
        if (tid < stride) smem[tid] += smem[tid + stride]; \
        __syncthreads(); \
    } \
    if (tid == 0) y[row] = __float2half_rn(smem[0]); \
}

DEFINE_GEMV(q4k_gemv, deq_q4k)
DEFINE_GEMV(q5k_gemv, deq_q5k)
DEFINE_GEMV(q6k_gemv, deq_q6k)
DEFINE_GEMV(q8_0_gemv, deq_q8_0)
