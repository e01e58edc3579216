# bochservisor

A CPU loop for Bochs that runs a guest in the host's hypervisor for as long as
it can, and steps Bochs's own emulation where it cannot: at device accesses,
halts, and states that the hypervisor refuses.

`src/` holds what the loop decides and computes, verified with Verus:

- `regions`: the guest's pages, merged into the regions that are mapped into
  the hypervisor
- `mem_reader`, `virtmem`: reads of guest memory by physical and by virtual
  address. `virtmem` walks the four levels of tables of an x86-64 guest; it
  looks at the present bit, the page size bit and the address of an entry
- `vmexit`, `exits`: exit reasons, their frequencies, and what an exit calls for
- `persist`: times, reports and counts that outlive an entry of the loop
- `cpu_loop`: the order of the work, as a state machine that hands out a piece
  of work and takes back what came of it
- `kicker`: when a running guest is made to exit
- `coverage`: which offsets of which modules have been seen

The functions named `law_*` state what holds of the library as a whole.

`app/` does the work: it calls Bochs's routines and the hypervisor, reads the
clock and prints. A host supplies its hypervisor through `Hypervisor` and
`HostApi`.

The numbers of exit reasons and of permissions are those of the Windows
Hypervisor Platform (`WHV_RUN_VP_EXIT_REASON`, `WHV_MAP_GPA_RANGE_FLAGS`).
