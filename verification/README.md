# harmony_glitch

Game-state logic of a small multiplayer world, verified with Verus.

- `src/` is the verified library: quests and dialogue (`quest`), skills
  (`skill`), the inventory (`item`), buddies, parties and the social message
  protocol (`social`), the remote player registry, announce data and
  received frames (`network`), street manifests and the typed-value street XML (`street`),
  sound kit requests (`soundkit`), emotes, input decisions and validation
  helpers. Every public function
  carries a contract; the laws that relate several functions (round trips,
  conservation of items, cancelling a skill undoes starting it, quest display
  agreeing with readiness) are public proof functions.
- `tests/` runs the library on concrete values.
- `app/` holds what stays outside the verified library: JSON loading,
  files, clocks, and the floating-point parts (mood, physics, street
  geometry, remote player positions).
