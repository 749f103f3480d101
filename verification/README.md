# grout

A Qwen 3 inference engine on `cutile`. The library in `src/` is its host side, written in Verus:
the rules that decide what is read, planned, launched or refused, with contracts that are proved.
The program in `app/` reads files, talks to the device and computes in floating point.

## The library

| Modules | What they hold |
|---------|----------------|
| `gguf`, `dequant`, `shard`, `loader`, `names`, `text`, `config` | Model files: the GGUF container, quantized blocks, safetensors shards, settings |
| `weights`, `quant_scratch`, `engine` | Weights on the device, the scratch buffer of prefill, loading and the memory check |
| `graph`, `step_graph`, `pool`, `pool_plan`, `run` | One forward step as a list of operations, its buffers and its run |
| `forward`, `attention`, `pointwise`, `products`, `gemm`, `cublas`, `kernel`, `dispatch`, `tiles` | The operations of a model, and which kernels compute them |
| `decode_plan`, `caches` | The recorded steps of one token, and who owns the caches |
| `generate`, `session`, `sampling`, `choice` | Generating text, the session, choosing a token |
| `warmup`, `profile`, `knobs` | Compiling kernels ahead, where time goes, tuning |
| `bench_attention`, `bench_gemv`, `bench_group`, `bench_quant` | What the benchmarks run |
| `forward_laws`, `plan_laws`, `run_laws`, `dispatch_laws`, `decode_laws` | What holds across functions |

Floating-point numbers appear in the library as their bits. Buffers of the device appear as
numbers with shapes; a launch is a value (`kernel::KernelCall`) that the program carries out.

A few outside calls are taken on trust, each with a doc comment that says what is claimed:
`String::from_utf8_lossy`, `String::push`, parsing the header of a safetensors file and the file
itself, finding a tensor in it, and looking up a token in the vocabulary of a tokenizer.

## The program

One binary serves all uses; the name it is started under says which one runs:
`attention_microbench`, `gemv_microbench`, `group_gemm_microbench`, `grout_bench`,
`quant_gemv_microbench`, `q8_0_soa_microbench`, `kquant_soa_microbench`, and the text generator
under any other name.

```
grout --model <path-to-qwen3-model> --prompt "Hello, how are you?" --max-new-tokens 128
```

`extras/quant_gemv.cu` holds the device code of `quant_gemv_microbench`.
