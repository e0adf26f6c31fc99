# Attaché

An encrypted folder for Linux that asks **which program** may open your files.

`src/` is the library: the decisions behind the folder, verified with Verus.
What a request to the mounted vault may do, whom it takes to allow it, which
binaries are always allowed, what a line on the control socket asks for, whether
a disc holds an intact vault. It does no input or output of its own: it is told
what was read and says what is to be done.

| Module | What it decides |
| --- | --- |
| `passthrough_fs` | what each request to the mounted vault may do, and its answer |
| `attributes`, `inode_table`, `handles` | the attributes, inodes and open files behind it |
| `policy`, `asking`, `whitelist`, `process_info` | which program may open the vault |
| `control` | requests to change or look at a mounted vault |
| `mount_helper`, `gate_args` | how the vault is mounted |
| `import`, `manifest`, `install`, `copy_tree`, `import_args` | restoring a vault from a disc |
| `path`, `path_map`, `text`, `digest`, `errno` | paths, text, digests and errors |

`app/` is the programs around it: the FUSE filesystem, the dialogs, the control
socket, the privileged mount helper and the importer.

What the proofs take on trust is what `sha2` computes, what the standard library
makes of bytes that are not UTF-8, and that a character pushed onto a string
ends up at its end.
